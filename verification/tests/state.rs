use eddie::config_structs::AppConfig;
use eddie::config_structs::ConfigNode;
use eddie::state::Activation;
use eddie::state::HandleOutcome;
use eddie::state::NavCommand;
use eddie::state::UiState;
use eddie::state::get_description_for_node;
use eddie::toml_model::TomlDoc;
use eddie::toml_model::TomlEntry;
use eddie::toml_model::TomlTable;
use eddie::toml_model::TomlValue;
use eddie::toml_parser::build;

fn entry_str(key: &str, val: &str) -> TomlEntry {
    TomlEntry { key: key.to_string(), value: TomlValue::ScalarString(val.to_string()) }
}

fn entry_bool(key: &str, b: bool) -> TomlEntry {
    TomlEntry { key: key.to_string(), value: TomlValue::ScalarBool(b) }
}

fn entry_sub(key: &str, h: usize) -> TomlEntry {
    TomlEntry { key: key.to_string(), value: TomlValue::SubTable(h) }
}

fn table(entries: Vec<TomlEntry>) -> TomlTable {
    TomlTable { entries }
}

/// Root children sorted: Colors (Blue, Green, Red), Single (Only), Task leaf.
fn sample() -> AppConfig {
    let blue = table(vec![entry_str("name", "Blue"), entry_str("description", "blue item")]);
    let red = table(vec![entry_str("name", "Red")]);
    let green = table(vec![entry_str("name", "Green")]);
    let colors = table(vec![
        entry_str("name", "Colors"),
        entry_sub("b", 0),
        entry_sub("r", 1),
        entry_sub("g", 2),
    ]);
    let only = table(vec![entry_str("name", "Only"), entry_str("command", "true")]);
    let single = table(vec![entry_str("name", "Single"), entry_sub("only", 4)]);
    let task = table(vec![entry_str("name", "Task"), entry_str("command", "ls")]);
    let root_t = table(vec![entry_sub("colors", 3), entry_sub("single", 5), entry_sub(
        "task", 6,
    )]);
    let doc = TomlDoc {
        tables: vec![blue, red, green, colors, only, single, task, root_t],
        root: 7,
    };
    build(&doc).unwrap()
}

#[test]
fn initial_state_browses_the_root() {
    let cfg = sample();
    let st = UiState::new(cfg.config_tree);
    assert_eq!(st.title, "Root config node");
    assert_eq!(st.breadcrumbs.len(), 0);
    assert_eq!(st.group_items.len(), 3);
    assert_eq!(st.selection_index, Some(0));
    assert_eq!(st.command_output, "");
    assert!(!st.need_redraw);
    // the first child is selected, so its description is shown
    assert_eq!(st.description, "NO DESCRIPTION PROVIDED");
}

#[test]
fn select_next_then_previous_restores_selection() {
    let cfg = sample();
    let mut st = UiState::new(cfg.config_tree);
    st.enter_selected_node().unwrap();
    assert_eq!(st.title, "Colors");
    assert_eq!(st.group_items.len(), 3);
    assert_eq!(st.selection_index, Some(0));
    st.select_next();
    assert_eq!(st.selection_index, Some(1));
    st.select_previous();
    assert_eq!(st.selection_index, Some(0));
    // and the other way round, across the wrap
    st.select_previous();
    assert_eq!(st.selection_index, Some(2));
    st.select_next();
    assert_eq!(st.selection_index, Some(0));
}

#[test]
fn selection_moves_are_no_ops_on_a_single_item_group() {
    let cfg = sample();
    let mut st = UiState::new(cfg.config_tree);
    st.select_next();
    assert_eq!(st.selection_index, Some(1));  // "Single"
    st.enter_selected_node().unwrap();
    assert_eq!(st.title, "Single");
    assert_eq!(st.group_items.len(), 1);
    st.select_next();
    assert_eq!(st.selection_index, Some(0));
    st.select_previous();
    assert_eq!(st.selection_index, Some(0));
}

#[test]
fn enter_then_exit_restores_position() {
    let cfg = sample();
    let mut st = UiState::new(cfg.config_tree);
    let current = st.current_node;
    let items = st.group_items.clone();
    let selection = st.selection_index;
    st.enter_selected_node().unwrap();
    assert_eq!(st.title, "Colors");
    assert_eq!(st.breadcrumbs.len(), 1);
    // the description is re-derived from the entered group's first child
    assert_eq!(st.description, "blue item");
    st.exit_current_node().unwrap();
    assert_eq!(st.current_node, current);
    assert_eq!(st.group_items, items);
    assert_eq!(st.selection_index, selection);
    assert_eq!(st.breadcrumbs.len(), 0);
    // and re-derived again from the re-selected first child after the pop
    assert_eq!(st.description, "NO DESCRIPTION PROVIDED");
}

#[test]
fn exit_at_the_root_changes_nothing() {
    let cfg = sample();
    let mut st = UiState::new(cfg.config_tree);
    let before = st.clone();
    st.exit_current_node().unwrap();
    assert_eq!(st, before);
}

#[test]
fn entering_a_leaf_changes_nothing() {
    let cfg = sample();
    let mut st = UiState::new(cfg.config_tree);
    st.select_next();
    st.select_next();
    // "Task", a leaf
    let before = st.clone();
    st.enter_selected_node().unwrap();
    assert_eq!(st, before);
}

#[test]
fn empty_group_operations_are_silent_no_ops() {
    let doc = TomlDoc { tables: vec![table(vec![])], root: 0 };
    let cfg = build(&doc).unwrap();
    let launcher = cfg.eddie_config;
    let mut st = UiState::new(cfg.config_tree);
    assert_eq!(st.selection_index, None);
    assert_eq!(st.get_selected_node(), None);
    let before = st.clone();
    st.select_next();
    assert_eq!(st, before);
    st.select_previous();
    assert_eq!(st, before);
    assert_eq!(st.update_description(), None);
    assert_eq!(st.activate_selected(&launcher), Activation::NoSelection);
    assert_eq!(st, before);
}

#[test]
fn description_follows_the_selection() {
    let cfg = sample();
    let mut st = UiState::new(cfg.config_tree);
    st.enter_selected_node().unwrap();
    // children of Colors sorted: Blue, Green, Red
    assert_eq!(st.description, "blue item");
    st.select_next();
    st.update_description().unwrap();
    assert_eq!(st.description, "NO DESCRIPTION PROVIDED");
    st.select_previous();
    st.update_description().unwrap();
    assert_eq!(st.description, "blue item");
}

#[test]
fn activating_a_group_enters_it() {
    let cfg = sample();
    let launcher = cfg.eddie_config.clone();
    let mut st = UiState::new(cfg.config_tree);
    let act = st.activate_selected(&launcher);
    assert_eq!(act, Activation::Entered);
    assert_eq!(st.title, "Colors");
    assert_eq!(st.breadcrumbs.len(), 1);
}

#[test]
fn activating_a_leaf_yields_its_invocation_and_stores_output() {
    let cfg = sample();
    let launcher = cfg.eddie_config.clone();
    let mut st = UiState::new(cfg.config_tree);
    st.select_next();
    st.select_next();
    // "Task", command "ls"
    match st.activate_selected(&launcher) {
        Activation::Execute(ci) => {
            assert_eq!(ci.program, "bash");
            assert_eq!(ci.args, vec!["-c".to_string(), "ls".to_string()]);
            assert!(!ci.detach);
        },
        other => panic!("expected a command invocation, got {:?}", other),
    }
    st.set_command_output("file listing".to_string());
    assert_eq!(st.command_output, "file listing");
    assert!(st.need_redraw);
}

#[test]
fn external_commands_run_detached_in_the_emulator() {
    let top = table(vec![
        entry_str("name", "Top"),
        entry_str("command", "htop"),
        entry_bool("external", true),
    ]);
    let root_t = table(vec![entry_sub("top", 0)]);
    let doc = TomlDoc { tables: vec![top, root_t], root: 1 };
    let cfg = build(&doc).unwrap();
    let launcher = cfg.eddie_config.clone();
    let mut st = UiState::new(cfg.config_tree);
    match st.activate_selected(&launcher) {
        Activation::Execute(ci) => {
            assert_eq!(ci.program, "xterm");
            assert_eq!(
                ci.args,
                vec![
                    "-e".to_string(),
                    "bash".to_string(),
                    "-c".to_string(),
                    "htop".to_string()
                ]
            );
            assert!(ci.detach);
        },
        other => panic!("expected a command invocation, got {:?}", other),
    }
}

#[test]
fn commands_drive_the_state() {
    let cfg = sample();
    let launcher = cfg.eddie_config.clone();
    let mut st = UiState::new(cfg.config_tree);
    assert_eq!(st.handle_command(NavCommand::Quit, &launcher), HandleOutcome::Quit);
    assert_eq!(st.handle_command(NavCommand::SelectNext, &launcher), HandleOutcome::Continue);
    assert_eq!(st.selection_index, Some(1));
    assert_eq!(st.handle_command(NavCommand::SelectPrevious, &launcher), HandleOutcome::Continue);
    assert_eq!(st.selection_index, Some(0));
    assert_eq!(st.handle_command(NavCommand::Confirm, &launcher), HandleOutcome::Continue);
    assert_eq!(st.title, "Colors");
    assert_eq!(st.handle_command(NavCommand::Back, &launcher), HandleOutcome::Continue);
    assert_eq!(st.title, "Root config node");
    let before = st.clone();
    assert_eq!(st.handle_command(NavCommand::Cancel, &launcher), HandleOutcome::Continue);
    assert_eq!(st, before);
}

#[test]
fn breadcrumb_trail_names_the_path() {
    let cfg = sample();
    let launcher = cfg.eddie_config.clone();
    let mut st = UiState::new(cfg.config_tree);
    assert_eq!(st.breadcrumb_trail(&launcher), "Heart of Gold / ");
    st.enter_selected_node().unwrap();
    assert_eq!(st.breadcrumb_trail(&launcher), "Heart of Gold / Root config node");
}

#[test]
fn node_description_line_names_the_kind() {
    let group = ConfigNode {
        name: "G".to_string(),
        description: "a group".to_string(),
        command: "".to_string(),
        opens_external: false,
        children: Some(vec![0]),
    };
    let leaf = ConfigNode {
        name: "L".to_string(),
        description: "a command".to_string(),
        command: "ls".to_string(),
        opens_external: false,
        children: None,
    };
    assert_eq!(get_description_for_node(&group), "[Type: Group] a group");
    assert_eq!(get_description_for_node(&leaf), "[Type: Command] a command");
    assert!(!group._is_leaf());
    assert!(leaf._is_leaf());
    assert!(group._is_valid());
    assert!(leaf._is_valid());
    let inert = ConfigNode {
        name: "I".to_string(),
        description: "".to_string(),
        command: "".to_string(),
        opens_external: false,
        children: None,
    };
    assert!(inert._is_leaf());
    assert!(!inert._is_valid());
}
