use eddie::config_structs::EddieConfig;
use eddie::executor::command_invocation;
use eddie::toml_model::TomlDoc;
use eddie::toml_model::TomlEntry;
use eddie::toml_model::TomlTable;
use eddie::toml_model::TomlValue;
use eddie::toml_parser::ParseError;
use eddie::toml_parser::build;
use eddie::toml_parser::parse_node;
use eddie::toml_parser::read_config;

fn entry_str(key: &str, val: &str) -> TomlEntry {
    TomlEntry { key: key.to_string(), value: TomlValue::ScalarString(val.to_string()) }
}

fn entry_bool(key: &str, b: bool) -> TomlEntry {
    TomlEntry { key: key.to_string(), value: TomlValue::ScalarBool(b) }
}

fn entry_sub(key: &str, h: usize) -> TomlEntry {
    TomlEntry { key: key.to_string(), value: TomlValue::SubTable(h) }
}

fn table(entries: Vec<TomlEntry>) -> TomlTable {
    TomlTable { entries }
}

fn default_launcher() -> EddieConfig {
    EddieConfig {
        ship_name: "Heart of Gold".to_string(),
        terminal_emulator: "xterm".to_string(),
        terminal_emulator_command_arg: "-e".to_string(),
        shell: "bash".to_string(),
    }
}

#[test]
fn leaf_without_command_parses_as_empty_command() {
    let doc = TomlDoc { tables: vec![table(vec![entry_str("name", "Idle")])], root: 0 };
    let mut arena = Vec::new();
    let h = parse_node(&doc, 0, &mut arena).unwrap();
    assert_eq!(arena[h].name, "Idle");
    assert_eq!(arena[h].command, "");
    assert_eq!(arena[h].description, "NO DESCRIPTION PROVIDED");
    assert!(arena[h].children.is_none());
    assert!(!arena[h].opens_external);
    // activating such a leaf invokes the shell with an empty command string
    let ci = command_invocation(&default_launcher(), &arena[h]);
    assert_eq!(ci.program, "bash");
    assert_eq!(ci.args, vec!["-c".to_string(), "".to_string()]);
    assert!(!ci.detach);
}

#[test]
fn tools_children_are_sorted_by_name() {
    let build_t = table(vec![entry_str("name", "Build"), entry_str("command", "make")]);
    let test_t = table(vec![entry_str("name", "Test"), entry_str("command", "make test")]);
    let tools_t = table(vec![entry_str("name", "tools"), entry_sub("test", 1), entry_sub(
        "build", 0,
    )]);
    let root_t = table(vec![entry_sub("tools", 2)]);
    let doc = TomlDoc { tables: vec![build_t, test_t, tools_t, root_t], root: 3 };
    let cfg = build(&doc).unwrap();
    let tree = &cfg.config_tree;
    let root = &tree.nodes[tree.root];
    assert_eq!(root.name, "Root config node");
    let kids = root.children.as_ref().unwrap();
    assert_eq!(kids.len(), 1);
    let tools = &tree.nodes[kids[0]];
    assert_eq!(tools.name, "tools");
    assert!(tools.children.is_some());
    let tkids = tools.children.as_ref().unwrap();
    let names: Vec<&str> = tkids.iter().map(|&h| tree.nodes[h].name.as_str()).collect();
    assert_eq!(names, vec!["Build", "Test"]);
    assert_eq!(tree.nodes[tkids[0]].command, "make");
    assert_eq!(tree.nodes[tkids[1]].command, "make test");
}

#[test]
fn children_sorted_at_every_depth_independently() {
    // grandchildren deliberately out of order, and out of order at the top
    let zeta = table(vec![entry_str("name", "zeta")]);
    let alpha = table(vec![entry_str("name", "alpha")]);
    let mid = table(vec![entry_str("name", "mid"), entry_sub("z", 0), entry_sub("a", 1)]);
    let beta = table(vec![entry_str("name", "beta"), entry_str("command", "true")]);
    let root_t = table(vec![entry_sub("mid", 2), entry_sub("beta", 3)]);
    let doc = TomlDoc { tables: vec![zeta, alpha, mid, beta, root_t], root: 4 };
    let cfg = build(&doc).unwrap();
    let tree = &cfg.config_tree;
    // every node is a leaf or has a non-empty child list
    for node in &tree.nodes {
        if let Some(cs) = &node.children {
            assert!(!cs.is_empty());
            let names: Vec<&String> = cs.iter().map(|&h| &tree.nodes[h].name).collect();
            let mut sorted = names.clone();
            sorted.sort();
            assert_eq!(names, sorted);
        }
    }
    let kids = tree.nodes[tree.root].children.as_ref().unwrap();
    let top: Vec<&str> = kids.iter().map(|&h| tree.nodes[h].name.as_str()).collect();
    assert_eq!(top, vec!["beta", "mid"]);
    let mid_kids = tree.nodes[kids[1]].children.as_ref().unwrap();
    let inner: Vec<&str> = mid_kids.iter().map(|&h| tree.nodes[h].name.as_str()).collect();
    assert_eq!(inner, vec!["alpha", "zeta"]);
}

#[test]
fn launcher_settings_with_only_shell_set_take_other_defaults() {
    let ship_t = table(vec![entry_str("shell", "zsh")]);
    let root_t = table(vec![entry_sub("ship", 0)]);
    let doc = TomlDoc { tables: vec![ship_t, root_t], root: 1 };
    let cfg = build(&doc).unwrap();
    assert_eq!(cfg.eddie_config.shell, "zsh");
    assert_eq!(cfg.eddie_config.ship_name, "Heart of Gold");
    assert_eq!(cfg.eddie_config.terminal_emulator, "xterm");
    assert_eq!(cfg.eddie_config.terminal_emulator_command_arg, "-e");
    // the reserved key itself is not a child of the root
    assert!(cfg.config_tree.nodes[cfg.config_tree.root].children.is_none());
}

#[test]
fn missing_name_is_a_missing_field() {
    let t = table(vec![entry_str("command", "ls")]);
    let root_t = table(vec![entry_sub("x", 0)]);
    let doc = TomlDoc { tables: vec![t, root_t], root: 1 };
    assert_eq!(build(&doc), Err(ParseError::MissingField));
}

#[test]
fn name_of_wrong_type_is_a_type_mismatch() {
    let t = table(vec![entry_bool("name", true)]);
    let doc = TomlDoc { tables: vec![t], root: 0 };
    let mut arena = Vec::new();
    assert_eq!(parse_node(&doc, 0, &mut arena), Err(ParseError::TypeMismatch));
}

#[test]
fn external_flag_of_wrong_type_is_a_type_mismatch() {
    let t = table(vec![entry_str("name", "X"), entry_str("external", "yes")]);
    let doc = TomlDoc { tables: vec![t], root: 0 };
    let mut arena = Vec::new();
    assert_eq!(parse_node(&doc, 0, &mut arena), Err(ParseError::TypeMismatch));
}

#[test]
fn scalar_top_level_entry_is_a_type_mismatch() {
    let root_t = table(vec![entry_str("ip", "127.0.0.1")]);
    let doc = TomlDoc { tables: vec![root_t], root: 0 };
    assert_eq!(build(&doc), Err(ParseError::TypeMismatch));
}

#[test]
fn scalar_ship_key_is_a_type_mismatch() {
    let root_t = table(vec![entry_str("ship", "tiny")]);
    let doc = TomlDoc { tables: vec![root_t], root: 0 };
    assert_eq!(build(&doc), Err(ParseError::TypeMismatch));
}

#[test]
fn read_config_parses_real_document_text() {
    let text = "[deploy]\nname = \"Deploy\"\ncommand = \"make deploy\"\nexternal = true\n\n[deploy.logs]\nname = \"Logs\"\ncommand = \"tail -f log\"\n";
    let cfg = read_config(text).unwrap();
    let tree = &cfg.config_tree;
    let kids = tree.nodes[tree.root].children.as_ref().unwrap();
    assert_eq!(kids.len(), 1);
    let deploy = &tree.nodes[kids[0]];
    assert_eq!(deploy.name, "Deploy");
    assert_eq!(deploy.command, "make deploy");
    assert!(deploy.opens_external);
    let dkids = deploy.children.as_ref().unwrap();
    assert_eq!(dkids.len(), 1);
    let logs = &tree.nodes[dkids[0]];
    assert_eq!(logs.name, "Logs");
    assert_eq!(logs.command, "tail -f log");
    assert!(logs.children.is_none());
}

#[test]
fn read_config_rejects_unparsable_text() {
    assert_eq!(read_config("= not a document ["), Err(ParseError::InvalidDocument));
}

#[test]
fn read_config_resolves_launcher_from_text() {
    let text = "[ship]\nname = \"Eddie\"\nshell = \"zsh\"\n";
    let cfg = read_config(text).unwrap();
    assert_eq!(cfg.eddie_config.ship_name, "Eddie");
    assert_eq!(cfg.eddie_config.shell, "zsh");
    assert_eq!(cfg.eddie_config.terminal_emulator, "xterm");
}
