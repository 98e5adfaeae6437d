//! The navigation state machine.
//!
//! A [`UiState`] owns the immutable configuration tree and tracks the current
//! position in it: the node whose children are being browsed, the breadcrumb
//! stack of entered ancestors, the cached child list of the current node, the
//! selection inside it, and the derived display strings.  The UI loop mutates
//! the state only through the operations here, one per input event, and
//! redraws from the public fields afterwards.
//!
//! Every operation preserves the invariant [`UiState::inv`], and what each
//! does to the position is given by the transition functions [`spec_enter`]
//! and [`spec_exit`] over the model [`NavModel`].

use vstd::prelude::*;
use vstd::string::StringExecFns;

use crate::config_structs::ConfigNode;
use crate::config_structs::ConfigTree;
use crate::config_structs::EddieConfig;
use crate::config_structs::NodeModel;
use crate::config_structs::TreeModel;
use crate::config_structs::children_of;
use crate::config_structs::node_wf;
use crate::executor::CommandInvocation;
use crate::executor::command_invocation;
use crate::executor::spec_invocation;
use crate::config_structs::handle_seq;

verus! {

/// The navigation position: the current node, the entered ancestors from the
/// root down, the current node's child list, and the selection in it.
#[verifier::ext_equal]
pub struct NavModel {
    pub current: int,
    pub breadcrumbs: Seq<int>,
    pub items: Seq<int>,
    pub selection: Option<int>,
}

/// Where the selection moves on select-next: one forward, wrapping past the
/// end.
pub open spec fn next_index(i: int, n: int) -> int {
    if i + 1 < n {
        i + 1
    } else {
        0
    }
}

/// Where the selection moves on select-previous: one back, wrapping past the
/// start.
pub open spec fn prev_index(i: int, n: int) -> int {
    if i == 0 {
        n - 1
    } else {
        i - 1
    }
}

/// Law: moving the selection forward then backward, or backward then forward,
/// returns it to where it was; on a group of one item either movement already
/// stays put.
pub proof fn lemma_selection_round_trip(i: int, n: int)
    requires
        0 <= i < n,
    ensures
        prev_index(next_index(i, n), n) == i,
        next_index(prev_index(i, n), n) == i,
        n == 1 ==> next_index(i, n) == i && prev_index(i, n) == i,
{
}

/// The derived description for a position: the selected item's text, or the
/// current node's own text when its group is empty.  The description field is
/// never set independently, so the displayed text cannot diverge from the
/// tree.
pub open spec fn spec_description(nodes: Seq<NodeModel>, s: NavModel) -> Seq<char> {
    match s.selection {
        Some(i) => nodes[s.items[i]].description,
        None => nodes[s.current].description,
    }
}

/// Entering is possible when an item is selected and it is a group node.
pub open spec fn enter_enabled(t: TreeModel, s: NavModel) -> bool {
    &&& s.selection is Some
    &&& 0 <= s.selection->Some_0 < s.items.len()
    &&& 0 <= s.items[s.selection->Some_0] < t.nodes.len()
    &&& t.nodes[s.items[s.selection->Some_0]].children is Some
}

/// The position after entering the selected group: the old current node joins
/// the breadcrumbs, the selected child becomes current, and its first child
/// (if any) is selected.
pub open spec fn spec_enter(t: TreeModel, s: NavModel) -> NavModel {
    let target = s.items[s.selection->Some_0];
    let kids = children_of(t.nodes, target);
    NavModel {
        current: target,
        breadcrumbs: s.breadcrumbs.push(s.current),
        items: kids,
        selection: if kids.len() == 0 {
            None
        } else {
            Some(0int)
        },
    }
}

/// The position after exiting the current group: the last breadcrumb becomes
/// current again with its first child selected; at the root (no breadcrumbs)
/// nothing changes.
pub open spec fn spec_exit(t: TreeModel, s: NavModel) -> NavModel {
    if s.breadcrumbs.len() == 0 {
        s
    } else {
        let prev = s.breadcrumbs.last();
        let kids = children_of(t.nodes, prev);
        NavModel {
            current: prev,
            breadcrumbs: s.breadcrumbs.drop_last(),
            items: kids,
            selection: if kids.len() == 0 {
                None
            } else {
                Some(0int)
            },
        }
    }
}

/// Law: entering the selected child and immediately exiting restores the
/// current node, the breadcrumbs and the group items; the selection too when
/// it was on the first item (exiting always selects the first item again, so
/// a selection elsewhere is not restored).
pub proof fn lemma_enter_exit_round_trip(t: TreeModel, s: NavModel)
    requires
        enter_enabled(t, s),
        s.items == children_of(t.nodes, s.current),
    ensures
        spec_exit(t, spec_enter(t, s)).current == s.current,
        spec_exit(t, spec_enter(t, s)).breadcrumbs == s.breadcrumbs,
        spec_exit(t, spec_enter(t, s)).items == s.items,
        s.selection == Some(0int) ==> spec_exit(t, spec_enter(t, s)) == s,
{
    assert(spec_exit(t, spec_enter(t, s)).breadcrumbs =~= s.breadcrumbs);
    if s.selection == Some(0int) {
        assert(spec_exit(t, spec_enter(t, s)) =~= s);
    }
}

/// What activating the selected item does.
#[derive(Debug, Clone, PartialEq, Eq)]
pub enum Activation {
    /// The selected item is a command: the invocation to run.
    Execute(CommandInvocation),
    /// The selected item is a group: the state entered it.
    Entered,
    /// The group is empty, nothing is selected.
    NoSelection,
}

/// One abstract input event of the UI loop.
#[derive(Debug, Clone, Copy, PartialEq, Eq, Structural)]
pub enum NavCommand {
    /// Leave the UI loop.
    Quit,
    /// Move the selection forward.
    SelectNext,
    /// Move the selection backward.
    SelectPrevious,
    /// Activate the selected item: enter a group, run a command.
    Confirm,
    /// Go back up to the parent group.
    Back,
    /// Reserved; does nothing.
    Cancel,
}

/// What the UI loop must do after handing a command to the state.
#[derive(Debug, Clone, PartialEq, Eq)]
pub enum HandleOutcome {
    /// End the loop.
    Quit,
    /// Run this invocation and hand the output back through
    /// [`UiState::set_command_output`].
    Run(CommandInvocation),
    /// Nothing to do outside: redraw and read the next event.
    Continue,
}

/// The navigation state: the tree and the current position in it, plus the
/// derived display strings.
#[derive(Debug, Clone, PartialEq, Eq)]
pub struct UiState {
    /// The immutable configuration tree, built once at startup.
    pub tree: ConfigTree,
    /// The handle of the root node.
    pub root_node: usize,
    /// The node whose children are being browsed; the root initially.
    pub current_node: usize,
    /// The entered ancestors, root first.
    pub breadcrumbs: Vec<usize>,
    /// The child handles of the current node, sorted by name.
    pub group_items: Vec<usize>,
    /// The selected position in `group_items`; `None` only when the group is
    /// empty.
    pub selection_index: Option<usize>,
    /// The current node's name.
    pub title: String,
    /// The selected item's description.
    pub description: String,
    /// What the last executed command printed, or a status line.
    pub command_output: String,
    /// Set after a command ran; the UI loop clears it once it redrew.
    pub need_redraw: bool,
}

impl UiState {
    /// The navigation position of this state.
    pub open spec fn nav(self) -> NavModel {
        NavModel {
            current: self.current_node as int,
            breadcrumbs: handle_seq(self.breadcrumbs@),
            items: handle_seq(self.group_items@),
            selection: match self.selection_index {
                Option::None => None,
                Option::Some(i) => Some(i as int),
            },
        }
    }

    /// The breadcrumbs name a chain of entered groups from the root down to
    /// the current node.
    pub open spec fn crumbs_linked(self) -> bool {
        let t = self.tree@;
        let bc = handle_seq(self.breadcrumbs@);
        &&& forall|k: int| 0 <= k < bc.len() ==> 0 <= #[trigger] bc[k] < t.nodes.len()
        &&& if bc.len() == 0 {
            self.current_node as int == t.root
        } else {
            &&& bc[0] == t.root
            &&& forall|k: int|
                0 <= k < bc.len() - 1 ==> children_of(t.nodes, bc[k]).contains(#[trigger] bc[k + 1])
            &&& children_of(t.nodes, bc.last()).contains(self.current_node as int)
        }
    }

    /// The state invariant: the tree is well-formed and immutable, the cached
    /// child list and the selection match the current node, the title is the
    /// current node's name, and the breadcrumbs chain from the root to here.
    pub open spec fn inv(self) -> bool {
        let t = self.tree@;
        &&& t.wf()
        &&& self.root_node as int == t.root
        &&& 0 <= (self.current_node as int) < t.nodes.len()
        &&& handle_seq(self.group_items@) == children_of(t.nodes, self.current_node as int)
        &&& match self.selection_index {
            Option::None => self.group_items@.len() == 0,
            Option::Some(i) => (i as int) < self.group_items@.len(),
        }
        &&& self.crumbs_linked()
        &&& self.title@ == t.nodes[self.current_node as int].name
    }
}

/// A verified copy of a handle list.
fn copy_handles(cs: &Vec<usize>) -> (r: Vec<usize>)
    ensures
        r@ == cs@,
{
    let mut r: Vec<usize> = Vec::new();
    let mut i: usize = 0;
    proof {
        assert(cs@.take(0) =~= Seq::<usize>::empty());
    }
    while i < cs.len()
        invariant
            i <= cs@.len(),
            r@ == cs@.take(i as int),
        decreases cs@.len() - i,
    {
        r.push(cs[i]);
        proof {
            assert(cs@.take(i + 1) =~= cs@.take(i as int).push(cs@[i as int]));
        }
        i = i + 1;
    }
    proof {
        assert(cs@.take(cs@.len() as int) =~= cs@);
    }
    r
}

impl UiState {
    /// Opens node `node`: caches its children (sorted already by
    /// construction), selects the first one if any, and derives the title and
    /// the description.  The breadcrumbs are the caller's to keep right.
    pub fn set_config_for_node(&mut self, node: usize)
        requires
            old(self).tree@.wf(),
            (node as int) < old(self).tree@.nodes.len(),
        ensures
            final(self).tree == old(self).tree,
            final(self).root_node == old(self).root_node,
            final(self).breadcrumbs == old(self).breadcrumbs,
            final(self).command_output == old(self).command_output,
            final(self).need_redraw == old(self).need_redraw,
            final(self).current_node == node,
            handle_seq(final(self).group_items@) == children_of(
                old(self).tree@.nodes,
                node as int,
            ),
            final(self).selection_index == (if children_of(
                old(self).tree@.nodes,
                node as int,
            ).len() == 0 {
                Option::<usize>::None
            } else {
                Option::<usize>::Some(0usize)
            }),
            final(self).title@ == old(self).tree@.nodes[node as int].name,
            final(self).description@ == (if children_of(old(self).tree@.nodes, node as int).len()
                > 0 {
                old(self).tree@.nodes[children_of(old(self).tree@.nodes, node as int)[0]].description
            } else {
                old(self).tree@.nodes[node as int].description
            }),
    {
        self.title = self.tree.nodes[node].name.clone();
        self.current_node = node;
        let has_children = self.tree.nodes[node].children.is_some();
        if has_children {
            let cs = match &self.tree.nodes[node].children {
                Option::Some(cs) => copy_handles(cs),
                Option::None => Vec::new(),
            };
            proof {
                assert(node_wf(self.tree@.nodes, node as int));
                assert(handle_seq(cs@) == children_of(self.tree@.nodes, node as int));
                assert(children_of(self.tree@.nodes, node as int).len() > 0);
                assert(0 <= children_of(self.tree@.nodes, node as int)[0] < node as int);
            }
            let first = cs[0];
            self.group_items = cs;
            self.selection_index = Option::Some(0);
            self.description = self.tree.nodes[first].description.clone();
        } else {
            self.group_items = Vec::new();
            self.selection_index = Option::None;
            self.description = self.tree.nodes[node].description.clone();
            proof {
                assert(handle_seq(self.group_items@) =~= Seq::<int>::empty());
                assert(children_of(self.tree@.nodes, node as int) =~= Seq::<int>::empty());
            }
        }
    }

    /// Starts navigation at the root of the tree: no breadcrumbs, the root's
    /// children cached, the first one selected.
    pub fn new(tree: ConfigTree) -> (s: UiState)
        requires
            tree@.wf(),
        ensures
            s.inv(),
            s.tree == tree,
            s.current_node as int == tree@.root,
            s.breadcrumbs@.len() == 0,
            handle_seq(s.group_items@) == children_of(tree@.nodes, tree@.root),
            s.selection_index == (if children_of(tree@.nodes, tree@.root).len() == 0 {
                Option::<usize>::None
            } else {
                Option::<usize>::Some(0usize)
            }),
            s.description@ == spec_description(tree@.nodes, s.nav()),
            s.command_output@ == Seq::<char>::empty(),
            s.need_redraw == false,
    {
        let root = tree.root;
        let mut s = UiState {
            tree,
            root_node: root,
            current_node: root,
            breadcrumbs: Vec::new(),
            group_items: Vec::new(),
            selection_index: Option::None,
            title: String::new(),
            description: String::new(),
            command_output: String::new(),
            need_redraw: false,
        };
        s.set_config_for_node(root);
        s
    }

    /// The handle of the selected child, if an item is selected.
    pub fn get_selected_node(&self) -> (r: Option<usize>)
        requires
            self.inv(),
        ensures
            match self.selection_index {
                Option::Some(i) => r == Option::Some(self.group_items@[i as int]),
                Option::None => r is None,
            },
    {
        match self.selection_index {
            Option::Some(i) => Option::Some(self.group_items[i]),
            Option::None => Option::None,
        }
    }

    /// Refreshes the description to the selected item's; does nothing (and
    /// says so) when nothing is selected.
    pub fn update_description(&mut self) -> (r: Option<()>)
        requires
            old(self).inv(),
        ensures
            final(self).inv(),
            final(self).tree == old(self).tree,
            final(self).root_node == old(self).root_node,
            final(self).current_node == old(self).current_node,
            final(self).breadcrumbs == old(self).breadcrumbs,
            final(self).group_items == old(self).group_items,
            final(self).selection_index == old(self).selection_index,
            final(self).title == old(self).title,
            final(self).command_output == old(self).command_output,
            final(self).need_redraw == old(self).need_redraw,
            match old(self).selection_index {
                Option::Some(i) => r == Option::Some(()) && final(self).description@ == old(self).tree@.nodes[old(self).group_items@[i as int] as int].description,
                Option::None => r is None && *final(self) == *old(self),
            },
    {
        match self.selection_index {
            Option::Some(i) => {
                let target = self.group_items[i];
                proof {
                    assert(node_wf(self.tree@.nodes, self.current_node as int));
                    assert(children_of(self.tree@.nodes, self.current_node as int)[i as int]
                        == target as int);
                }
                self.description = self.tree.nodes[target].description.clone();
                Option::Some(())
            },
            Option::None => Option::None,
        }
    }

    /// Moves the selection one forward, wrapping past the end; a silent no-op
    /// on an empty group.
    pub fn select_next(&mut self)
        requires
            old(self).inv(),
        ensures
            final(self).inv(),
            final(self).tree == old(self).tree,
            final(self).root_node == old(self).root_node,
            final(self).current_node == old(self).current_node,
            final(self).breadcrumbs == old(self).breadcrumbs,
            final(self).group_items == old(self).group_items,
            final(self).title == old(self).title,
            final(self).description == old(self).description,
            final(self).command_output == old(self).command_output,
            final(self).need_redraw == old(self).need_redraw,
            match old(self).selection_index {
                Option::Some(i) => final(self).selection_index matches Option::Some(k)
                    && k as int == next_index(i as int, old(self).group_items@.len() as int),
                Option::None => *final(self) == *old(self),
            },
    {
        match self.selection_index {
            Option::Some(i) => {
                let n = self.group_items.len();
                let k = if i + 1 < n {
                    i + 1
                } else {
                    0
                };
                self.selection_index = Option::Some(k);
            },
            Option::None => {},
        }
    }

    /// Moves the selection one back, wrapping past the start; a silent no-op
    /// on an empty group.
    pub fn select_previous(&mut self)
        requires
            old(self).inv(),
        ensures
            final(self).inv(),
            final(self).tree == old(self).tree,
            final(self).root_node == old(self).root_node,
            final(self).current_node == old(self).current_node,
            final(self).breadcrumbs == old(self).breadcrumbs,
            final(self).group_items == old(self).group_items,
            final(self).title == old(self).title,
            final(self).description == old(self).description,
            final(self).command_output == old(self).command_output,
            final(self).need_redraw == old(self).need_redraw,
            match old(self).selection_index {
                Option::Some(i) => final(self).selection_index matches Option::Some(k)
                    && k as int == prev_index(i as int, old(self).group_items@.len() as int),
                Option::None => *final(self) == *old(self),
            },
    {
        match self.selection_index {
            Option::Some(i) => {
                let n = self.group_items.len();
                let k = if i == 0 {
                    n - 1
                } else {
                    i - 1
                };
                self.selection_index = Option::Some(k);
            },
            Option::None => {},
        }
    }

    /// Enters the selected child when it is a group: the current node joins
    /// the breadcrumbs and the child's children are browsed.  Entering a leaf
    /// changes nothing; with no selection, returns `None`.
    pub fn enter_selected_node(&mut self) -> (r: Option<()>)
        requires
            old(self).inv(),
        ensures
            final(self).inv(),
            final(self).tree == old(self).tree,
            final(self).root_node == old(self).root_node,
            final(self).command_output == old(self).command_output,
            final(self).need_redraw == old(self).need_redraw,
            r is Some <==> old(self).selection_index is Some,
            old(self).selection_index is None ==> *final(self) == *old(self),
            enter_enabled(old(self).tree@, old(self).nav()) ==> final(self).nav() == spec_enter(
                old(self).tree@,
                old(self).nav(),
            ),
            enter_enabled(old(self).tree@, old(self).nav()) ==> final(self).description@
                == spec_description(
                old(self).tree@.nodes,
                spec_enter(old(self).tree@, old(self).nav()),
            ),
            (old(self).selection_index matches Option::Some(i)
                && old(self).tree@.nodes[old(self).group_items@[i as int] as int].children
                is None) ==> *final(self) == *old(self),
    {
        let sel = match self.selection_index {
            Option::Some(i) => i,
            Option::None => {
                return Option::None;
            },
        };
        let target = self.group_items[sel];
        proof {
            assert(node_wf(self.tree@.nodes, self.current_node as int));
            assert(children_of(self.tree@.nodes, self.current_node as int)[sel as int]
                == target as int);
            assert((target as int) < self.current_node as int);
        }
        let target_is_group = self.tree.nodes[target].children.is_some();
        if target_is_group {
            let ghost pre = *self;
            self.breadcrumbs.push(self.current_node);
            self.set_config_for_node(target);
            proof {
                assert(handle_seq(self.breadcrumbs@) =~= handle_seq(pre.breadcrumbs@).push(
                    pre.current_node as int,
                ));
                assert(self.nav() =~= spec_enter(pre.tree@, pre.nav()));
                assert(children_of(pre.tree@.nodes, pre.current_node as int).contains(
                    target as int,
                ));
                assert(self.crumbs_linked());
            }
        }
        Option::Some(())
    }

    /// Pops the last breadcrumb and browses it again, its first child
    /// selected; at the root (no breadcrumbs) this changes nothing.
    pub fn exit_current_node(&mut self) -> (r: Option<()>)
        requires
            old(self).inv(),
        ensures
            final(self).inv(),
            r == Option::Some(()),
            final(self).tree == old(self).tree,
            final(self).root_node == old(self).root_node,
            final(self).command_output == old(self).command_output,
            final(self).need_redraw == old(self).need_redraw,
            final(self).nav() == spec_exit(old(self).tree@, old(self).nav()),
            old(self).breadcrumbs@.len() > 0 ==> final(self).description@ == spec_description(
                old(self).tree@.nodes,
                spec_exit(old(self).tree@, old(self).nav()),
            ),
            old(self).breadcrumbs@.len() == 0 ==> *final(self) == *old(self),
    {
        if self.breadcrumbs.len() > 0 {
            let ghost pre = *self;
            let previous_node = match self.breadcrumbs.pop() {
                Option::Some(p) => p,
                Option::None => {
                    return Option::Some(());
                },
            };
            proof {
                assert(handle_seq(pre.breadcrumbs@).last() == previous_node as int);
                assert(handle_seq(self.breadcrumbs@) =~= handle_seq(pre.breadcrumbs@).drop_last());
            }
            self.set_config_for_node(previous_node);
            proof {
                assert(self.nav() =~= spec_exit(pre.tree@, pre.nav()));
                let t = self.tree@;
                let bc = handle_seq(pre.breadcrumbs@);
                let bc2 = handle_seq(self.breadcrumbs@);
                assert(bc2 =~= bc.drop_last());
                assert forall|k: int| 0 <= k < bc2.len() implies 0 <= #[trigger] bc2[k]
                    < t.nodes.len() by {
                    assert(bc2[k] == bc[k]);
                }
                if bc2.len() > 0 {
                    assert(bc2[0] == bc[0]);
                    assert forall|k: int| 0 <= k < bc2.len() - 1 implies children_of(
                        t.nodes,
                        bc2[k],
                    ).contains(#[trigger] bc2[k + 1]) by {
                        assert(bc2[k] == bc[k] && bc2[k + 1] == bc[k + 1]);
                    }
                    assert(bc2.last() == bc[bc.len() - 2]);
                    assert(children_of(t.nodes, bc[bc.len() - 2]).contains(bc[bc.len() - 2 + 1]));
                    assert(children_of(t.nodes, bc2.last()).contains(self.current_node as int));
                }
                assert(self.crumbs_linked());
            }
        }
        Option::Some(())
    }

    /// Activates the selected item, the one branch point of the UI's confirm
    /// key: a command leaf yields the invocation to run (the state unchanged
    /// until the output is handed back); a group is entered; an empty group
    /// does nothing.
    pub fn activate_selected(&mut self, cfg: &EddieConfig) -> (r: Activation)
        requires
            old(self).inv(),
        ensures
            final(self).inv(),
            final(self).tree == old(self).tree,
            final(self).root_node == old(self).root_node,
            final(self).command_output == old(self).command_output,
            final(self).need_redraw == old(self).need_redraw,
            match old(self).selection_index {
                Option::None => r == Activation::NoSelection && *final(self) == *old(self),
                Option::Some(i) => {
                    let target = old(self).group_items@[i as int] as int;
                    if old(self).tree@.nodes[target].children is None {
                        &&& *final(self) == *old(self)
                        &&& (r matches Activation::Execute(ci) && ci@ == spec_invocation(
                            cfg@,
                            old(self).tree@.nodes[target].command,
                            old(self).tree@.nodes[target].opens_external,
                        ))
                    } else {
                        &&& r == Activation::Entered
                        &&& final(self).nav() == spec_enter(old(self).tree@, old(self).nav())
                        &&& final(self).description@ == spec_description(
                            old(self).tree@.nodes,
                            spec_enter(old(self).tree@, old(self).nav()),
                        )
                    }
                },
            },
    {
        let sel = match self.selection_index {
            Option::Some(i) => i,
            Option::None => {
                return Activation::NoSelection;
            },
        };
        let target = self.group_items[sel];
        proof {
            assert(node_wf(self.tree@.nodes, self.current_node as int));
            assert(children_of(self.tree@.nodes, self.current_node as int)[sel as int]
                == target as int);
            assert((target as int) < self.current_node as int);
        }
        let target_is_leaf = self.tree.nodes[target]._is_leaf();
        if target_is_leaf {
            let ci = command_invocation(cfg, &self.tree.nodes[target]);
            Activation::Execute(ci)
        } else {
            let _ = self.enter_selected_node();
            Activation::Entered
        }
    }

    /// Stores what an executed command printed (or a status line) and asks
    /// the UI loop for a redraw.
    pub fn set_command_output(&mut self, output: String)
        requires
            old(self).inv(),
        ensures
            final(self).inv(),
            final(self).command_output == output,
            final(self).need_redraw == true,
            final(self).tree == old(self).tree,
            final(self).root_node == old(self).root_node,
            final(self).current_node == old(self).current_node,
            final(self).breadcrumbs == old(self).breadcrumbs,
            final(self).group_items == old(self).group_items,
            final(self).selection_index == old(self).selection_index,
            final(self).title == old(self).title,
            final(self).description == old(self).description,
    {
        self.command_output = output;
        self.need_redraw = true;
    }

    /// Applies one abstract input event, as the UI loop's event handler:
    /// moves the selection (refreshing the description), activates the
    /// selected item, or goes back up.
    pub fn handle_command(&mut self, cmd: NavCommand, cfg: &EddieConfig) -> (r: HandleOutcome)
        requires
            old(self).inv(),
        ensures
            final(self).inv(),
            final(self).tree == old(self).tree,
            final(self).root_node == old(self).root_node,
            match cmd {
                NavCommand::Quit => r == HandleOutcome::Quit && *final(self) == *old(self),
                NavCommand::Cancel => r == HandleOutcome::Continue && *final(self) == *old(self),
                NavCommand::SelectNext => r == HandleOutcome::Continue && (match old(self).selection_index {
                    Option::Some(i) => {
                        &&& final(self).current_node == old(self).current_node
                        &&& final(self).breadcrumbs == old(self).breadcrumbs
                        &&& final(self).group_items == old(self).group_items
                        &&& final(self).title == old(self).title
                        &&& final(self).command_output == old(self).command_output
                        &&& final(self).need_redraw == old(self).need_redraw
                        &&& (final(self).selection_index matches Option::Some(k) && k as int
                            == next_index(i as int, old(self).group_items@.len() as int) && final(self).description@ == old(self).tree@.nodes[old(self).group_items@[k as int] as int].description)
                    },
                    Option::None => *final(self) == *old(self),
                }),
                NavCommand::SelectPrevious => r == HandleOutcome::Continue && (match old(self).selection_index {
                    Option::Some(i) => {
                        &&& final(self).current_node == old(self).current_node
                        &&& final(self).breadcrumbs == old(self).breadcrumbs
                        &&& final(self).group_items == old(self).group_items
                        &&& final(self).title == old(self).title
                        &&& final(self).command_output == old(self).command_output
                        &&& final(self).need_redraw == old(self).need_redraw
                        &&& (final(self).selection_index matches Option::Some(k) && k as int
                            == prev_index(i as int, old(self).group_items@.len() as int) && final(self).description@ == old(self).tree@.nodes[old(self).group_items@[k as int] as int].description)
                    },
                    Option::None => *final(self) == *old(self),
                }),
                NavCommand::Confirm => match old(self).selection_index {
                    Option::None => r == HandleOutcome::Continue && *final(self) == *old(self),
                    Option::Some(i) => {
                        let target = old(self).group_items@[i as int] as int;
                        if old(self).tree@.nodes[target].children is None {
                            &&& *final(self) == *old(self)
                            &&& (r matches HandleOutcome::Run(ci) && ci@ == spec_invocation(
                                cfg@,
                                old(self).tree@.nodes[target].command,
                                old(self).tree@.nodes[target].opens_external,
                            ))
                        } else {
                            &&& r == HandleOutcome::Continue
                            &&& final(self).nav() == spec_enter(old(self).tree@, old(self).nav())
                            &&& final(self).description@ == spec_description(
                                old(self).tree@.nodes,
                                spec_enter(old(self).tree@, old(self).nav()),
                            )
                            &&& final(self).command_output == old(self).command_output
                            &&& final(self).need_redraw == old(self).need_redraw
                        }
                    },
                },
                NavCommand::Back => {
                    &&& r == HandleOutcome::Continue
                    &&& final(self).nav() == spec_exit(old(self).tree@, old(self).nav())
                    &&& (old(self).breadcrumbs@.len() > 0 ==> final(self).description@
                        == spec_description(
                        old(self).tree@.nodes,
                        spec_exit(old(self).tree@, old(self).nav()),
                    ))
                    &&& (old(self).breadcrumbs@.len() == 0 ==> *final(self) == *old(self))
                    &&& final(self).command_output == old(self).command_output
                    &&& final(self).need_redraw == old(self).need_redraw
                },
            },
    {
        match cmd {
            NavCommand::Quit => HandleOutcome::Quit,
            NavCommand::SelectNext => {
                self.select_next();
                let _ = self.update_description();
                HandleOutcome::Continue
            },
            NavCommand::SelectPrevious => {
                self.select_previous();
                let _ = self.update_description();
                HandleOutcome::Continue
            },
            NavCommand::Confirm => {
                match self.activate_selected(cfg) {
                    Activation::Execute(ci) => HandleOutcome::Run(ci),
                    Activation::Entered => HandleOutcome::Continue,
                    Activation::NoSelection => HandleOutcome::Continue,
                }
            },
            NavCommand::Back => {
                let _ = self.exit_current_node();
                HandleOutcome::Continue
            },
            NavCommand::Cancel => HandleOutcome::Continue,
        }
    }

    /// The breadcrumb trail for display: the ship name, then the names of the
    /// entered nodes, separated by slashes.
    pub fn breadcrumb_trail(&self, cfg: &EddieConfig) -> (r: String)
        requires
            self.inv(),
        ensures
            r@ == cfg@.ship_name + " / "@ + spec_trail(
                self.tree@.nodes,
                handle_seq(self.breadcrumbs@),
            ),
    {
        let ghost bc = handle_seq(self.breadcrumbs@);
        let mut out = cfg.ship_name.clone();
        out.append(" / ");
        let mut i: usize = 0;
        proof {
            assert(bc.take(0) =~= Seq::<int>::empty());
        }
        while i < self.breadcrumbs.len()
            invariant
                self.inv(),
                bc == handle_seq(self.breadcrumbs@),
                i <= self.breadcrumbs@.len(),
                out@ == cfg@.ship_name + " / "@ + spec_trail(self.tree@.nodes, bc.take(i as int)),
            decreases self.breadcrumbs@.len() - i,
        {
            if i > 0 {
                out.append(" / ");
            }
            let b = self.breadcrumbs[i];
            out.append(self.tree.nodes[b].name.as_str());
            proof {
                assert(bc.take(i + 1).drop_last() =~= bc.take(i as int));
                assert(bc.take(i + 1).last() == bc[i as int]);
            }
            i = i + 1;
        }
        proof {
            assert(bc.take(self.breadcrumbs@.len() as int) =~= bc);
        }
        out
    }
}

/// The names of the breadcrumb nodes joined by slashes: the path trail after
/// the ship name.
pub open spec fn spec_trail(nodes: Seq<NodeModel>, bc: Seq<int>) -> Seq<char>
    decreases bc.len(),
{
    if bc.len() == 0 {
        Seq::empty()
    } else if bc.len() == 1 {
        nodes[bc[0]].name
    } else {
        spec_trail(nodes, bc.drop_last()) + " / "@ + nodes[bc.last()].name
    }
}

/// The description line shown for a node: its kind (group or command) and its
/// description text.
pub fn get_description_for_node(node: &ConfigNode) -> (r: String)
    ensures
        r@ == "[Type: "@ + (if node@.is_leaf() {
            "Command"@
        } else {
            "Group"@
        }) + "] "@ + node@.description,
{
    let mut out = "[Type: ".to_owned();
    if node._is_leaf() {
        out.append("Command");
    } else {
        out.append("Group");
    }
    out.append("] ");
    out.append(node.description.as_str());
    out
}

} // verus!

