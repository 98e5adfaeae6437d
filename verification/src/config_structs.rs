//! The configuration tree and the resolved launcher settings.
//!
//! The tree is an arena: `ConfigTree` owns every node, and a node's children
//! are handles (indices) into the arena.  The tree is built bottom-up, so a
//! well-formed node's child handles point strictly below the node itself;
//! once built, the tree is never mutated — navigation only holds handles into
//! it.
//!
//! Contracts speak of the mathematical models [`NodeModel`] and [`TreeModel`]:
//! the same shapes with sequences of characters for strings and integers for
//! handles.

use vstd::prelude::*;
use vstd::utf8::encode_utf8;

use crate::order::lex_le;

verus! {

/// A single item of the configuration tree: a group (has children) or a
/// command (a leaf).
#[derive(Debug, Clone, PartialEq, Eq)]
pub struct ConfigNode {
    /// Display name and breadcrumb label.
    pub name: String,
    /// Shown when the node is the selected item.
    pub description: String,
    /// Shell command text; empty for group nodes.
    pub command: String,
    /// True when the command runs in a separate terminal emulator instead of
    /// being captured synchronously.
    pub opens_external: bool,
    /// Handles of the child nodes, sorted by name; `None` exactly when the
    /// node is a leaf.
    pub children: Option<Vec<usize>>,
}

/// The mathematical model of a node.
pub struct NodeModel {
    pub name: Seq<char>,
    pub description: Seq<char>,
    pub command: Seq<char>,
    pub opens_external: bool,
    pub children: Option<Seq<int>>,
}

impl View for ConfigNode {
    type V = NodeModel;

    open spec fn view(&self) -> NodeModel {
        NodeModel {
            name: self.name@,
            description: self.description@,
            command: self.command@,
            opens_external: self.opens_external,
            children: match self.children {
                Option::None => None,
                Option::Some(cs) => Some(cs@.map_values(|u: usize| u as int)),
            },
        }
    }
}

/// The models of a whole node arena.
pub open spec fn models(nodes: Seq<ConfigNode>) -> Seq<NodeModel> {
    nodes.map_values(|n: ConfigNode| n@)
}

/// The handles of a child list, as plain integers.
pub open spec fn handle_seq(cs: Seq<usize>) -> Seq<int> {
    cs.map_values(|u: usize| u as int)
}

impl NodeModel {
    /// The UTF-8 bytes of the node's name, the key child lists are sorted by.
    pub open spec fn name_bytes(self) -> Seq<u8> {
        encode_utf8(self.name)
    }

    /// A node is a leaf exactly when it has no child list.
    pub open spec fn is_leaf(self) -> bool {
        self.children is None
    }

    /// A node is valid when it has children or a non-empty command.
    pub open spec fn is_valid(self) -> bool {
        self.children is Some || self.command.len() > 0
    }
}

impl ConfigNode {
    /// Whether the node is a leaf (a command node).
    pub fn _is_leaf(&self) -> (r: bool)
        ensures
            r == self@.is_leaf(),
    {
        self.children.is_none()
    }

    /// Whether the node is valid: a group, or a command with non-empty text.
    pub fn _is_valid(&self) -> (r: bool)
        ensures
            r == self@.is_valid(),
    {
        self.children.is_some() || !self.command.as_str().is_empty()
    }
}

/// The child handles of node `i`, or the empty sequence for a leaf.
pub open spec fn children_of(nodes: Seq<NodeModel>, i: int) -> Seq<int> {
    match nodes[i].children {
        Option::None => Seq::empty(),
        Option::Some(cs) => cs,
    }
}

/// Node `i` has the arena shape: a child list is non-empty and every child
/// handle points strictly below `i`.
pub open spec fn node_wf(nodes: Seq<NodeModel>, i: int) -> bool {
    match nodes[i].children {
        Option::None => true,
        Option::Some(cs) => {
            &&& cs.len() > 0
            &&& forall|j: int| 0 <= j < cs.len() ==> 0 <= #[trigger] cs[j] < i
        },
    }
}

/// The handles `cs` name nodes in ascending name order.
pub open spec fn children_sorted(nodes: Seq<NodeModel>, cs: Seq<int>) -> bool {
    forall|p: int, q: int|
        0 <= p < q < cs.len() ==> lex_le(
            nodes[#[trigger] cs[p]].name_bytes(),
            nodes[#[trigger] cs[q]].name_bytes(),
        )
}

/// The child list of node `i`, if any, is sorted by name.
pub open spec fn node_sorted(nodes: Seq<NodeModel>, i: int) -> bool {
    match nodes[i].children {
        Option::None => true,
        Option::Some(cs) => children_sorted(nodes, cs),
    }
}

/// The whole configuration tree, owned by one arena.
#[derive(Debug, Clone, PartialEq, Eq)]
pub struct ConfigTree {
    /// The node arena; children were pushed before their parents.
    pub nodes: Vec<ConfigNode>,
    /// The handle of the synthesized root node.
    pub root: usize,
}

/// The mathematical model of a tree: the node models and the root handle.
pub struct TreeModel {
    pub nodes: Seq<NodeModel>,
    pub root: int,
}

impl View for ConfigTree {
    type V = TreeModel;

    open spec fn view(&self) -> TreeModel {
        TreeModel { nodes: models(self.nodes@), root: self.root as int }
    }
}

impl TreeModel {
    /// Every node has the arena shape and a sorted child list, and the root
    /// handle is in range.
    pub open spec fn wf(self) -> bool {
        &&& 0 <= self.root < self.nodes.len()
        &&& forall|i: int| 0 <= i < self.nodes.len() ==> node_wf(self.nodes, i)
        &&& forall|i: int| 0 <= i < self.nodes.len() ==> node_sorted(self.nodes, i)
    }
}

/// The resolved launcher settings: how leaf commands are executed.
#[derive(Debug, Clone, PartialEq, Eq)]
pub struct EddieConfig {
    /// Display name shown before the breadcrumb trail.
    pub ship_name: String,
    /// Executable of the external terminal emulator.
    pub terminal_emulator: String,
    /// The emulator's "run this command" flag.
    pub terminal_emulator_command_arg: String,
    /// Shell executable used to run leaf commands.
    pub shell: String,
}

/// The mathematical model of the launcher settings.
pub struct EddieModel {
    pub ship_name: Seq<char>,
    pub terminal_emulator: Seq<char>,
    pub terminal_emulator_command_arg: Seq<char>,
    pub shell: Seq<char>,
}

impl View for EddieConfig {
    type V = EddieModel;

    open spec fn view(&self) -> EddieModel {
        EddieModel {
            ship_name: self.ship_name@,
            terminal_emulator: self.terminal_emulator@,
            terminal_emulator_command_arg: self.terminal_emulator_command_arg@,
            shell: self.shell@,
        }
    }
}

/// Everything the launcher needs at startup: the resolved settings and the
/// configuration tree.
#[derive(Debug, Clone, PartialEq, Eq)]
pub struct AppConfig {
    pub eddie_config: EddieConfig,
    pub config_tree: ConfigTree,
}

} // verus!
