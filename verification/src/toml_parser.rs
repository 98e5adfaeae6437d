//! The tree builder: turns a parsed configuration document into the
//! configuration tree and the resolved launcher settings.
//!
//! Every key of a node table whose value is itself a table is a child node;
//! the scalar keys `name`, `description`, `command` and `external` are the
//! node's own fields.  Children are sorted by name at every level.  Any
//! malformed field is a fatal parse error: nothing is built from a bad
//! document.
//!
//! What parsing returns is defined once, by the specification parser
//! [`spec_parse_node`]; the executable parser is proved to return exactly
//! that.

use vstd::prelude::*;

use crate::config_structs::AppConfig;
use crate::config_structs::ConfigNode;
use crate::config_structs::ConfigTree;
use crate::config_structs::EddieConfig;
use crate::config_structs::EddieModel;
use crate::config_structs::NodeModel;
use crate::config_structs::handle_seq;
use crate::config_structs::children_sorted;
use crate::config_structs::models;
use crate::config_structs::node_sorted;
use crate::config_structs::node_wf;
use crate::order::lemma_lex_le_total;
use crate::order::lemma_lex_le_trans;
use crate::order::lex_le;
use crate::order::str_le;
use crate::toml_model::TomlDoc;
use crate::toml_model::TomlEntry;
use crate::toml_model::TomlTable;
use crate::toml_model::TomlValue;

verus! {

/// Why a configuration document was rejected.
#[derive(Debug, Clone, Copy, PartialEq, Eq, Structural)]
pub enum ParseError {
    /// A node table has no `name` key.
    MissingField,
    /// A key holds a value of the wrong type.
    TypeMismatch,
    /// The document text is not a well-formed document.
    InvalidDocument,
}

/// The default description of a node that gives none.
pub open spec fn default_description() -> Seq<char> {
    "NO DESCRIPTION PROVIDED"@
}

/// The `name` field of a node table: required, and a string.
pub open spec fn spec_name(t: TomlTable) -> Result<Seq<char>, ParseError> {
    match t.lookup("name"@) {
        Option::None => Err(ParseError::MissingField),
        Option::Some(TomlValue::ScalarString(s)) => Ok(s@),
        Option::Some(_) => Err(ParseError::TypeMismatch),
    }
}

/// The `description` field: optional string, defaulted.
pub open spec fn spec_description(t: TomlTable) -> Result<Seq<char>, ParseError> {
    match t.lookup("description"@) {
        Option::None => Ok(default_description()),
        Option::Some(TomlValue::ScalarString(s)) => Ok(s@),
        Option::Some(_) => Err(ParseError::TypeMismatch),
    }
}

/// The `command` field: optional string, defaulted to empty.
pub open spec fn spec_command(t: TomlTable) -> Result<Seq<char>, ParseError> {
    match t.lookup("command"@) {
        Option::None => Ok(Seq::empty()),
        Option::Some(TomlValue::ScalarString(s)) => Ok(s@),
        Option::Some(_) => Err(ParseError::TypeMismatch),
    }
}

/// The `external` field: optional boolean, defaulted to false.
pub open spec fn spec_external(t: TomlTable) -> Result<bool, ParseError> {
    match t.lookup("external"@) {
        Option::None => Ok(false),
        Option::Some(TomlValue::ScalarBool(b)) => Ok(b),
        Option::Some(_) => Err(ParseError::TypeMismatch),
    }
}

/// Where a child whose name has bytes `nb` goes in the sorted child list
/// `cs`: before the first existing child it does not come after.
pub open spec fn insert_pos(nodes: Seq<NodeModel>, cs: Seq<int>, nb: Seq<u8>) -> int
    decreases cs.len(),
{
    if cs.len() == 0 {
        0
    } else if lex_le(nb, nodes[cs[0]].name_bytes()) {
        0
    } else {
        1 + insert_pos(nodes, cs.drop_first(), nb)
    }
}

/// The insert position is within the list.
proof fn lemma_insert_pos_range(nodes: Seq<NodeModel>, cs: Seq<int>, nb: Seq<u8>)
    ensures
        0 <= insert_pos(nodes, cs, nb) <= cs.len(),
    decreases cs.len(),
{
    if cs.len() > 0 && !lex_le(nb, nodes[cs[0]].name_bytes()) {
        lemma_insert_pos_range(nodes, cs.drop_first(), nb);
    }
}

/// `insert_pos` is the unique boundary position: everything before it comes
/// strictly before `nb`, and the entry at it (if any) does not.
proof fn lemma_insert_pos_boundary(nodes: Seq<NodeModel>, cs: Seq<int>, nb: Seq<u8>, p: int)
    requires
        0 <= p <= cs.len(),
        forall|q: int| 0 <= q < p ==> !lex_le(nb, nodes[#[trigger] cs[q]].name_bytes()),
        p < cs.len() ==> lex_le(nb, nodes[cs[p]].name_bytes()),
    ensures
        insert_pos(nodes, cs, nb) == p,
    decreases cs.len(),
{
    if cs.len() == 0 {
    } else if lex_le(nb, nodes[cs[0]].name_bytes()) {
        assert(p == 0);
    } else {
        assert(p >= 1);
        let rest = cs.drop_first();
        assert forall|q: int| 0 <= q < p - 1 implies !lex_le(
            nb,
            nodes[#[trigger] rest[q]].name_bytes(),
        ) by {
            assert(rest[q] == cs[q + 1]);
        }
        assert(p - 1 < rest.len() ==> rest[p - 1] == cs[p]);
        lemma_insert_pos_boundary(nodes, rest, nb, p - 1);
    }
}

/// The state of parsing the children of table `t` after its first `j` entries
/// were scanned: the node arena so far and the sorted child handles so far,
/// or the first error.  Each nested table is parsed into the arena and its
/// handle is put at its sorted position.
pub open spec fn spec_parse_step(doc: TomlDoc, t: int, nodes0: Seq<NodeModel>, j: int) -> Result<
    (Seq<NodeModel>, Seq<int>),
    ParseError,
>
    decreases t, 0int, j,
{
    if j <= 0 {
        Ok((nodes0, Seq::empty()))
    } else {
        match spec_parse_step(doc, t, nodes0, j - 1) {
            Err(e) => Err(e),
            Ok((nodes, cs)) => match doc.tables@[t].entries@[j - 1].value {
                TomlValue::SubTable(h) => {
                    if 0 <= h < t {
                        match spec_parse_node(doc, h as int, nodes) {
                            Err(e) => Err(e),
                            Ok((nodes2, c)) => Ok(
                                (
                                    nodes2,
                                    cs.insert(
                                        insert_pos(nodes2, cs, nodes2[c].name_bytes()),
                                        c,
                                    ),
                                ),
                            ),
                        }
                    } else {
                        Err(ParseError::InvalidDocument)
                    }
                },
                _ => Ok((nodes, cs)),
            },
        }
    }
}

/// What parsing table `t` of `doc` as a node produces, starting from the node
/// arena `nodes0`: the grown arena and the handle of the new node, or the
/// first error.  Own fields are checked first, then the nested tables in
/// entry order.
pub open spec fn spec_parse_node(doc: TomlDoc, t: int, nodes0: Seq<NodeModel>) -> Result<
    (Seq<NodeModel>, int),
    ParseError,
>
    decreases t, 1int, 0int,
{
    if !(0 <= t < doc.tables@.len()) {
        Err(ParseError::InvalidDocument)
    } else {
        let tbl = doc.tables@[t];
        if spec_name(tbl) is Err {
            Err(spec_name(tbl)->Err_0)
        } else if spec_description(tbl) is Err {
            Err(spec_description(tbl)->Err_0)
        } else if spec_command(tbl) is Err {
            Err(spec_command(tbl)->Err_0)
        } else if spec_external(tbl) is Err {
            Err(spec_external(tbl)->Err_0)
        } else {
            match spec_parse_step(doc, t, nodes0, tbl.entries@.len() as int) {
                Err(e) => Err(e),
                Ok((nodes, cs)) => {
                    let node = NodeModel {
                        name: spec_name(tbl)->Ok_0,
                        description: spec_description(tbl)->Ok_0,
                        command: spec_command(tbl)->Ok_0,
                        opens_external: spec_external(tbl)->Ok_0,
                        children: if cs.len() == 0 {
                            None
                        } else {
                            Some(cs)
                        },
                    };
                    Ok((nodes.push(node), nodes.len() as int))
                },
            }
        }
    }
}

/// Once a step fails, every later step reports the same error.
proof fn lemma_step_err_stays(doc: TomlDoc, t: int, nodes0: Seq<NodeModel>, j: int, j2: int)
    requires
        0 <= j <= j2,
        spec_parse_step(doc, t, nodes0, j) is Err,
    ensures
        spec_parse_step(doc, t, nodes0, j2) == spec_parse_step(doc, t, nodes0, j),
    decreases j2 - j,
{
    if j2 > j {
        lemma_step_err_stays(doc, t, nodes0, j, j2 - 1);
    }
}

/// Growing a model arena by appending keeps each old node's shape facts.
proof fn lemma_node_facts_prefix(m1: Seq<NodeModel>, m2: Seq<NodeModel>, i: int)
    requires
        m1.len() <= m2.len(),
        forall|k: int| 0 <= k < m1.len() ==> m2[k] == m1[k],
        0 <= i < m1.len(),
        node_wf(m1, i),
        node_sorted(m1, i),
    ensures
        node_wf(m2, i),
        node_sorted(m2, i),
{
    match m1[i].children {
        Option::None => {},
        Option::Some(cs) => {
            assert forall|p: int, q: int| 0 <= p < q < cs.len() implies lex_le(
                m2[#[trigger] cs[p]].name_bytes(),
                m2[#[trigger] cs[q]].name_bytes(),
            ) by {
                assert(0 <= cs[p] < i && 0 <= cs[q] < i);
                assert(lex_le(m1[cs[p]].name_bytes(), m1[cs[q]].name_bytes()));
            }
        },
    }
}

/// The models of a grown arena agree with the models of its prefix.
proof fn lemma_models_prefix(a1: Seq<ConfigNode>, a2: Seq<ConfigNode>)
    requires
        a1.len() <= a2.len(),
        a2.subrange(0, a1.len() as int) == a1,
    ensures
        forall|i: int| 0 <= i < a1.len() ==> models(a2)[i] == models(a1)[i],
{
    assert forall|i: int| 0 <= i < a1.len() implies models(a2)[i] == models(a1)[i] by {
        assert(a2.subrange(0, a1.len() as int)[i] == a2[i]);
    }
}

/// Mapping handles to integers and inserting commute.
proof fn lemma_handle_seq_insert(cs: Seq<usize>, p: int, h: usize)
    requires
        0 <= p <= cs.len(),
    ensures
        handle_seq(cs.insert(p, h)) == handle_seq(cs).insert(p, h as int),
{
    assert(handle_seq(cs.insert(p, h)) =~= handle_seq(cs).insert(p, h as int));
}

/// Inserts child handle `h` into the sorted handle list `cs`, keeping it
/// sorted by node name; the position is exactly [`insert_pos`].
fn insert_child_sorted(arena: &Vec<ConfigNode>, cs: &mut Vec<usize>, h: usize)
    requires
        (h as int) < arena@.len(),
        forall|q: int| 0 <= q < old(cs)@.len() ==> (old(cs)@[q] as int) < arena@.len(),
        children_sorted(models(arena@), handle_seq(old(cs)@)),
    ensures
        final(cs)@ == old(cs)@.insert(
            insert_pos(
                models(arena@),
                handle_seq(old(cs)@),
                models(arena@)[h as int].name_bytes(),
            ),
            h,
        ),
        children_sorted(models(arena@), handle_seq(final(cs)@)),
        forall|q: int| 0 <= q < final(cs)@.len() ==> (final(cs)@[q] as int) < arena@.len(),
{
    let ghost m = models(arena@);
    let ghost hb = m[h as int].name_bytes();
    let mut p: usize = 0;
    while p < cs.len() && !str_le(arena[h].name.as_str(), arena[cs[p]].name.as_str())
        invariant
            (h as int) < arena@.len(),
            m == models(arena@),
            hb == m[h as int].name_bytes(),
            forall|q: int| 0 <= q < cs@.len() ==> (cs@[q] as int) < arena@.len(),
            children_sorted(m, handle_seq(cs@)),
            cs == old(cs),
            p <= cs@.len(),
            forall|q: int|
                0 <= q < p ==> !lex_le(hb, m[#[trigger] handle_seq(cs@)[q]].name_bytes()),
        decreases cs@.len() - p,
    {
        proof {
            assert(m[handle_seq(cs@)[p as int]].name_bytes() == vstd::utf8::encode_utf8(
                arena@[cs@[p as int] as int].name@,
            ));
            assert(hb == vstd::utf8::encode_utf8(arena@[h as int].name@));
        }
        p = p + 1;
    }
    let ghost pre = handle_seq(cs@);
    let ghost pp = p as int;
    proof {
        assert(pp < pre.len() ==> lex_le(hb, m[pre[pp]].name_bytes()));
        lemma_insert_pos_boundary(m, pre, hb, pp);
        assert(insert_pos(m, pre, hb) == pp);
    }
    cs.insert(p, h);
    proof {
        lemma_handle_seq_insert(old(cs)@, pp, h);
        let now = handle_seq(cs@);
        assert(now == pre.insert(pp, h as int));
        assert forall|a: int, b: int| 0 <= a < b < now.len() implies lex_le(
            m[#[trigger] now[a]].name_bytes(),
            m[#[trigger] now[b]].name_bytes(),
        ) by {
            if a < pp && b < pp {
                assert(now[a] == pre[a] && now[b] == pre[b]);
            } else if a < pp && b == pp {
                assert(now[a] == pre[a]);
                lemma_lex_le_total(hb, m[pre[a]].name_bytes());
            } else if a < pp && b > pp {
                assert(now[a] == pre[a] && now[b] == pre[b - 1]);
            } else if a == pp {
                assert(now[b] == pre[b - 1] && b - 1 >= pp);
                assert(lex_le(hb, m[pre[pp]].name_bytes()));
                if b - 1 > pp {
                    lemma_lex_le_trans(
                        hb,
                        m[pre[pp]].name_bytes(),
                        m[pre[b - 1]].name_bytes(),
                    );
                }
            } else {
                assert(now[a] == pre[a - 1] && now[b] == pre[b - 1]);
            }
        }
    }
}

/// Parses table `t` of `doc` as one configuration node: appends the node's
/// whole subtree to `arena` bottom-up and returns the handle of the node,
/// or the first error of the table.  Returns exactly what
/// [`spec_parse_node`] says.
pub fn parse_node(doc: &TomlDoc, t: usize, arena: &mut Vec<ConfigNode>) -> (r: Result<
    usize,
    ParseError,
>)
    requires
        doc.wf(),
        (t as int) < doc.tables@.len(),
    ensures
        final(arena)@.len() >= old(arena)@.len(),
        final(arena)@.subrange(0, old(arena)@.len() as int) == old(arena)@,
        match spec_parse_node(*doc, t as int, models(old(arena)@)) {
            Ok(res) => {
                &&& r is Ok
                &&& (r->Ok_0 as int) == res.1
                &&& res.1 == final(arena)@.len() - 1
                &&& models(final(arena)@) == res.0
            },
            Err(e) => r == Err::<usize, ParseError>(e),
        },
        r is Ok ==> forall|i: int|
            old(arena)@.len() <= i < final(arena)@.len() ==> node_wf(models(final(arena)@), i)
                && node_sorted(models(final(arena)@), i),
    decreases t,
{
    proof {
        assert(arena@.subrange(0, arena@.len() as int) =~= arena@);
    }
    let ghost nodes0 = models(old(arena)@);
    let tbl = &doc.tables[t];
    let ghost tblg = doc.tables@[t as int];
    let k_name = "name".to_owned();
    let name: String = match tbl.get(&k_name) {
        Option::None => {
            return Err(ParseError::MissingField);
        },
        Option::Some(v) => match v {
            TomlValue::ScalarString(s) => s.clone(),
            _ => {
                return Err(ParseError::TypeMismatch);
            },
        },
    };
    proof {
        assert(spec_name(tblg) == Ok::<Seq<char>, ParseError>(name@));
    }
    let k_desc = "description".to_owned();
    let description: String = match tbl.get(&k_desc) {
        Option::None => "NO DESCRIPTION PROVIDED".to_owned(),
        Option::Some(v) => match v {
            TomlValue::ScalarString(s) => s.clone(),
            _ => {
                return Err(ParseError::TypeMismatch);
            },
        },
    };
    proof {
        assert(spec_description(tblg) == Ok::<Seq<char>, ParseError>(description@));
    }
    let k_cmd = "command".to_owned();
    let command: String = match tbl.get(&k_cmd) {
        Option::None => String::new(),
        Option::Some(v) => match v {
            TomlValue::ScalarString(s) => s.clone(),
            _ => {
                return Err(ParseError::TypeMismatch);
            },
        },
    };
    proof {
        assert(spec_command(tblg) == Ok::<Seq<char>, ParseError>(command@));
    }
    let k_ext = "external".to_owned();
    let opens_external: bool = match tbl.get(&k_ext) {
        Option::None => false,
        Option::Some(v) => match v {
            TomlValue::ScalarBool(b) => *b,
            _ => {
                return Err(ParseError::TypeMismatch);
            },
        },
    };
    proof {
        assert(spec_external(tblg) == Ok::<bool, ParseError>(opens_external));
    }
    let mut children: Vec<usize> = Vec::new();
    let n = tbl.entries.len();
    let mut j: usize = 0;
    proof {
        assert(handle_seq(children@) =~= Seq::<int>::empty());
    }
    while j < n
        invariant
            doc.wf(),
            (t as int) < doc.tables@.len(),
            tblg == doc.tables@[t as int],
            *tbl == tblg,
            nodes0 == models(old(arena)@),
            n == tblg.entries@.len(),
            j <= n,
            old(arena)@.len() <= arena@.len(),
            arena@.subrange(0, old(arena)@.len() as int) == old(arena)@,
            forall|q: int| 0 <= q < children@.len() ==> (children@[q] as int) < arena@.len(),
            children_sorted(models(arena@), handle_seq(children@)),
            spec_parse_step(*doc, t as int, nodes0, j as int) == Ok::<
                (Seq<NodeModel>, Seq<int>),
                ParseError,
            >((models(arena@), handle_seq(children@))),
            forall|i: int|
                old(arena)@.len() <= i < arena@.len() ==> node_wf(models(arena@), i)
                    && node_sorted(models(arena@), i),
            spec_name(tblg) == Ok::<Seq<char>, ParseError>(name@),
            spec_description(tblg) == Ok::<Seq<char>, ParseError>(description@),
            spec_command(tblg) == Ok::<Seq<char>, ParseError>(command@),
            spec_external(tblg) == Ok::<bool, ParseError>(opens_external),
        decreases n - j,
    {
        let entry_sub: Option<usize> = match &tbl.entries[j].value {
            TomlValue::SubTable(h2) => Option::Some(*h2),
            _ => Option::None,
        };
        if let Option::Some(h2) = entry_sub {
            proof {
                assert(doc.table_wf(t as int));
                assert(tblg.entries@[j as int].value == TomlValue::SubTable(h2));
                assert((h2 as int) < t as int);
            }
            let ghost pre_arena = arena@;
            let ghost pre_children = children@;
            let rc = parse_node(doc, h2, arena);
            proof {
                lemma_models_prefix(pre_arena, arena@);
                assert(arena@.subrange(0, old(arena)@.len() as int) =~= old(arena)@);
            }
            let c = match rc {
                Result::Ok(c) => c,
                Result::Err(e) => {
                    proof {
                        assert(spec_parse_step(*doc, t as int, nodes0, j + 1) == Err::<
                            (Seq<NodeModel>, Seq<int>),
                            ParseError,
                        >(e));
                        lemma_step_err_stays(*doc, t as int, nodes0, j + 1, n as int);
                        assert(spec_parse_node(*doc, t as int, nodes0) == Err::<
                            (Seq<NodeModel>, int),
                            ParseError,
                        >(e));
                    }
                    return Err(e);
                },
            };
            proof {
                assert forall|q: int| 0 <= q < pre_children.len() implies models(
                    arena@,
                )[#[trigger] handle_seq(pre_children)[q]] == models(pre_arena)[handle_seq(
                    pre_children,
                )[q]] by {}
                assert(children_sorted(models(arena@), handle_seq(pre_children)));
                assert forall|i: int|
                    old(arena)@.len() <= i < pre_arena.len() implies node_wf(models(arena@), i)
                    && node_sorted(models(arena@), i) by {
                    lemma_node_facts_prefix(models(pre_arena), models(arena@), i);
                }
            }
            insert_child_sorted(arena, &mut children, c);
            proof {
                lemma_insert_pos_range(
                    models(arena@),
                    handle_seq(pre_children),
                    models(arena@)[c as int].name_bytes(),
                );
                lemma_handle_seq_insert(
                    pre_children,
                    insert_pos(
                        models(arena@),
                        handle_seq(pre_children),
                        models(arena@)[c as int].name_bytes(),
                    ),
                    c,
                );
                assert(spec_parse_step(*doc, t as int, nodes0, j + 1) == Ok::<
                    (Seq<NodeModel>, Seq<int>),
                    ParseError,
                >((models(arena@), handle_seq(children@))));
            }
        } else {
            proof {
                assert(spec_parse_step(*doc, t as int, nodes0, j + 1) == spec_parse_step(
                    *doc,
                    t as int,
                    nodes0,
                    j as int,
                ));
            }
        }
        j = j + 1;
    }
    let ghost pre_push = arena@;
    let ghost csg = handle_seq(children@);
    let node = ConfigNode {
        name,
        description,
        command,
        opens_external,
        children: if children.len() == 0 {
            Option::None
        } else {
            Option::Some(children)
        },
    };
    let ghost nodeg = node@;
    arena.push(node);
    let h = arena.len() - 1;
    proof {
        assert(models(arena@) =~= models(pre_push).push(nodeg));
        assert(arena@.subrange(0, pre_push.len() as int) =~= pre_push);
        lemma_models_prefix(pre_push, arena@);
        assert(arena@.subrange(0, old(arena)@.len() as int) =~= old(arena)@);
        assert(nodeg == NodeModel {
            name: spec_name(tblg)->Ok_0,
            description: spec_description(tblg)->Ok_0,
            command: spec_command(tblg)->Ok_0,
            opens_external: spec_external(tblg)->Ok_0,
            children: if csg.len() == 0 {
                None
            } else {
                Some(csg)
            },
        });
        assert(spec_parse_node(*doc, t as int, nodes0) == Ok::<(Seq<NodeModel>, int), ParseError>(
            (models(arena@), h as int),
        ));
        assert(node_wf(models(arena@), h as int));
        assert(node_sorted(models(arena@), h as int));
        assert forall|i: int|
            old(arena)@.len() <= i < pre_push.len() implies node_wf(models(arena@), i)
            && node_sorted(models(arena@), i) by {
            lemma_node_facts_prefix(models(pre_push), models(arena@), i);
        }
    }
    Ok(h)
}

/// The default ship name shown before the breadcrumb trail.
pub open spec fn default_ship_name() -> Seq<char> {
    "Heart of Gold"@
}

/// The default terminal emulator.
pub open spec fn default_emulator() -> Seq<char> {
    "xterm"@
}

/// The default "run this command" flag of the terminal emulator.
pub open spec fn default_emulator_arg() -> Seq<char> {
    "-e"@
}

/// The default shell.
pub open spec fn default_shell() -> Seq<char> {
    "bash"@
}

/// The launcher settings when the document has no launcher-settings table.
pub open spec fn default_eddie() -> EddieModel {
    EddieModel {
        ship_name: default_ship_name(),
        terminal_emulator: default_emulator(),
        terminal_emulator_command_arg: default_emulator_arg(),
        shell: default_shell(),
    }
}

/// One launcher-settings field: an optional string with a default.
pub open spec fn spec_launcher_field(st: TomlTable, key: Seq<char>, default: Seq<char>) -> Result<
    Seq<char>,
    ParseError,
> {
    match st.lookup(key) {
        Option::None => Ok(default),
        Option::Some(TomlValue::ScalarString(s)) => Ok(s@),
        Option::Some(_) => Err(ParseError::TypeMismatch),
    }
}

/// The launcher settings read from table `st`, each field falling back to its
/// default.
pub open spec fn spec_launcher_fields(st: TomlTable) -> Result<EddieModel, ParseError> {
    if spec_launcher_field(st, "name"@, default_ship_name()) is Err {
        Err(ParseError::TypeMismatch)
    } else if spec_launcher_field(st, "terminal_emulator"@, default_emulator()) is Err {
        Err(ParseError::TypeMismatch)
    } else if spec_launcher_field(st, "terminal_emulator_command_arg"@, default_emulator_arg())
        is Err {
        Err(ParseError::TypeMismatch)
    } else if spec_launcher_field(st, "shell"@, default_shell()) is Err {
        Err(ParseError::TypeMismatch)
    } else {
        Ok(
            EddieModel {
                ship_name: spec_launcher_field(st, "name"@, default_ship_name())->Ok_0,
                terminal_emulator: spec_launcher_field(
                    st,
                    "terminal_emulator"@,
                    default_emulator(),
                )->Ok_0,
                terminal_emulator_command_arg: spec_launcher_field(
                    st,
                    "terminal_emulator_command_arg"@,
                    default_emulator_arg(),
                )->Ok_0,
                shell: spec_launcher_field(st, "shell"@, default_shell())->Ok_0,
            },
        )
    }
}

/// The resolved launcher settings of a document: from the reserved `ship`
/// table if present, all defaults if absent; a non-table `ship` value is a
/// type mismatch.
pub open spec fn spec_launcher(doc: TomlDoc) -> Result<EddieModel, ParseError> {
    match doc.tables@[doc.root as int].lookup("ship"@) {
        Option::None => Ok(default_eddie()),
        Option::Some(TomlValue::SubTable(s)) => {
            if !(0 <= s < doc.tables@.len()) {
                Err(ParseError::InvalidDocument)
            } else {
                spec_launcher_fields(doc.tables@[s as int])
            }
        },
        Option::Some(_) => Err(ParseError::TypeMismatch),
    }
}

/// The state of building the top-level child list after the first `j` entries
/// of the root table: every entry but the reserved `ship` key must be a
/// table, parsed as a node and put at its sorted position.
pub open spec fn spec_build_step(doc: TomlDoc, j: int) -> Result<
    (Seq<NodeModel>, Seq<int>),
    ParseError,
>
    decreases j,
{
    let es = doc.tables@[doc.root as int].entries@;
    if j <= 0 {
        Ok((Seq::empty(), Seq::empty()))
    } else {
        match spec_build_step(doc, j - 1) {
            Err(e) => Err(e),
            Ok((nodes, cs)) => {
                if es[j - 1].key@ == "ship"@ {
                    Ok((nodes, cs))
                } else {
                    match es[j - 1].value {
                        TomlValue::SubTable(h) => {
                            if 0 <= h < doc.tables@.len() {
                                match spec_parse_node(doc, h as int, nodes) {
                                    Err(e) => Err(e),
                                    Ok((nodes2, c)) => Ok(
                                        (
                                            nodes2,
                                            cs.insert(
                                                insert_pos(nodes2, cs, nodes2[c].name_bytes()),
                                                c,
                                            ),
                                        ),
                                    ),
                                }
                            } else {
                                Err(ParseError::InvalidDocument)
                            }
                        },
                        _ => Err(ParseError::TypeMismatch),
                    }
                }
            },
        }
    }
}

/// The name of the synthesized root node.
pub open spec fn root_name() -> Seq<char> {
    "Root config node"@
}

/// The description of the synthesized root node.
pub open spec fn root_description() -> Seq<char> {
    "This is the root node of the configuration tree"@
}

/// What building a whole document produces: the node arena, the root handle
/// and the launcher settings, or the first error.  The launcher settings are
/// resolved first; then every top-level entry but `ship` becomes a child of
/// the synthesized root, sorted by name.
pub open spec fn spec_build(doc: TomlDoc) -> Result<
    (Seq<NodeModel>, int, EddieModel),
    ParseError,
> {
    match spec_launcher(doc) {
        Err(e) => Err(e),
        Ok(ec) => match spec_build_step(
            doc,
            doc.tables@[doc.root as int].entries@.len() as int,
        ) {
            Err(e) => Err(e),
            Ok((nodes, cs)) => {
                let rootn = NodeModel {
                    name: root_name(),
                    description: root_description(),
                    command: Seq::empty(),
                    opens_external: false,
                    children: if cs.len() == 0 {
                        None
                    } else {
                        Some(cs)
                    },
                };
                Ok((nodes.push(rootn), nodes.len() as int, ec))
            },
        },
    }
}

/// Once a build step fails, every later step reports the same error.
proof fn lemma_build_step_err_stays(doc: TomlDoc, j: int, j2: int)
    requires
        0 <= j <= j2,
        spec_build_step(doc, j) is Err,
    ensures
        spec_build_step(doc, j2) == spec_build_step(doc, j),
    decreases j2 - j,
{
    if j2 > j {
        lemma_build_step_err_stays(doc, j, j2 - 1);
    }
}

/// Reads one launcher-settings field: an optional string with a default.
fn launcher_field(st: &TomlTable, key: &String, default: &str) -> (r: Result<String, ParseError>)
    ensures
        match spec_launcher_field(*st, key@, default@) {
            Ok(v) => r is Ok && r->Ok_0@ == v,
            Err(e) => r == Err::<String, ParseError>(e),
        },
{
    match st.get(key) {
        Option::None => Ok(default.to_owned()),
        Option::Some(v) => match v {
            TomlValue::ScalarString(x) => Ok(x.clone()),
            _ => Err(ParseError::TypeMismatch),
        },
    }
}

/// Resolves the launcher settings of a document, field by field, falling back
/// to the defaults.
fn launcher_from(doc: &TomlDoc) -> (r: Result<EddieConfig, ParseError>)
    requires
        doc.wf(),
    ensures
        match spec_launcher(*doc) {
            Ok(m) => r is Ok && r->Ok_0@ == m,
            Err(e) => r == Err::<EddieConfig, ParseError>(e),
        },
{
    let root_tbl = &doc.tables[doc.root];
    let k_ship = "ship".to_owned();
    let ship_val = root_tbl.get(&k_ship);
    match ship_val {
        Option::None => Ok(
            EddieConfig {
                ship_name: "Heart of Gold".to_owned(),
                terminal_emulator: "xterm".to_owned(),
                terminal_emulator_command_arg: "-e".to_owned(),
                shell: "bash".to_owned(),
            },
        ),
        Option::Some(v) => match v {
            TomlValue::SubTable(s) => {
                proof {
                    assert(doc.table_wf(doc.root as int));
                    crate::toml_model::lemma_lookup_is_entry(
                        doc.tables@[doc.root as int].entries@,
                        "ship"@,
                    );
                    assert((*s as int) < doc.root as int);
                }
                let st = &doc.tables[*s];
                let ship_name = match launcher_field(st, &"name".to_owned(), "Heart of Gold") {
                    Result::Ok(x) => x,
                    Result::Err(e) => {
                        return Err(e);
                    },
                };
                let terminal_emulator = match launcher_field(
                    st,
                    &"terminal_emulator".to_owned(),
                    "xterm",
                ) {
                    Result::Ok(x) => x,
                    Result::Err(e) => {
                        return Err(e);
                    },
                };
                let terminal_emulator_command_arg = match launcher_field(
                    st,
                    &"terminal_emulator_command_arg".to_owned(),
                    "-e",
                ) {
                    Result::Ok(x) => x,
                    Result::Err(e) => {
                        return Err(e);
                    },
                };
                let shell = match launcher_field(st, &"shell".to_owned(), "bash") {
                    Result::Ok(x) => x,
                    Result::Err(e) => {
                        return Err(e);
                    },
                };
                Ok(
                    EddieConfig {
                        ship_name,
                        terminal_emulator,
                        terminal_emulator_command_arg,
                        shell,
                    },
                )
            },
            _ => Err(ParseError::TypeMismatch),
        },
    }
}

/// Builds the whole configuration from a parsed document: the resolved
/// launcher settings, and every top-level table (but the reserved `ship` key)
/// parsed as a child of a synthesized root node, sorted by name.  Returns
/// exactly what [`spec_build`] says, and the tree is well-formed: every child
/// list is non-empty and sorted by name at every depth.
pub fn build(doc: &TomlDoc) -> (r: Result<AppConfig, ParseError>)
    requires
        doc.wf(),
    ensures
        match spec_build(*doc) {
            Ok(res) => {
                &&& r is Ok
                &&& r->Ok_0.config_tree@.nodes == res.0
                &&& r->Ok_0.config_tree@.root == res.1
                &&& r->Ok_0.eddie_config@ == res.2
                &&& r->Ok_0.config_tree@.wf()
            },
            Err(e) => r == Err::<AppConfig, ParseError>(e),
        },
{
    let eddie = match launcher_from(doc) {
        Result::Ok(e) => e,
        Result::Err(e) => {
            return Err(e);
        },
    };
    let mut arena: Vec<ConfigNode> = Vec::new();
    let mut children: Vec<usize> = Vec::new();
    let root_tbl = &doc.tables[doc.root];
    let k_ship = "ship".to_owned();
    let n = root_tbl.entries.len();
    let mut j: usize = 0;
    proof {
        assert(models(arena@) =~= Seq::<NodeModel>::empty());
        assert(handle_seq(children@) =~= Seq::<int>::empty());
    }
    while j < n
        invariant
            doc.wf(),
            *root_tbl == doc.tables@[doc.root as int],
            k_ship@ == "ship"@,
            spec_launcher(*doc) == Ok::<EddieModel, ParseError>(eddie@),
            n == doc.tables@[doc.root as int].entries@.len(),
            j <= n,
            forall|q: int| 0 <= q < children@.len() ==> (children@[q] as int) < arena@.len(),
            children_sorted(models(arena@), handle_seq(children@)),
            spec_build_step(*doc, j as int) == Ok::<(Seq<NodeModel>, Seq<int>), ParseError>(
                (models(arena@), handle_seq(children@)),
            ),
            forall|i: int|
                0 <= i < arena@.len() ==> node_wf(models(arena@), i) && node_sorted(
                    models(arena@),
                    i,
                ),
        decreases n - j,
    {
        let en = &root_tbl.entries[j];
        if !en.key.eq(&k_ship) {
            let entry_sub: Option<usize> = match &en.value {
                TomlValue::SubTable(h2) => Option::Some(*h2),
                _ => Option::None,
            };
            if let Option::Some(h2) = entry_sub {
                proof {
                    assert(doc.table_wf(doc.root as int));
                    assert(doc.tables@[doc.root as int].entries@[j as int].value
                        == TomlValue::SubTable(h2));
                    assert((h2 as int) < doc.root as int);
                }
                let ghost pre_arena = arena@;
                let ghost pre_children = children@;
                let rc = parse_node(doc, h2, &mut arena);
                proof {
                    lemma_models_prefix(pre_arena, arena@);
                }
                let c = match rc {
                    Result::Ok(c) => c,
                    Result::Err(e) => {
                        proof {
                            assert(spec_build_step(*doc, j + 1) == Err::<
                                (Seq<NodeModel>, Seq<int>),
                                ParseError,
                            >(e));
                            lemma_build_step_err_stays(*doc, j + 1, n as int);
                        }
                        return Err(e);
                    },
                };
                proof {
                    assert(children_sorted(models(arena@), handle_seq(pre_children)));
                    assert forall|i: int| 0 <= i < pre_arena.len() implies node_wf(
                        models(arena@),
                        i,
                    ) && node_sorted(models(arena@), i) by {
                        lemma_node_facts_prefix(models(pre_arena), models(arena@), i);
                    }
                }
                insert_child_sorted(&arena, &mut children, c);
                proof {
                    lemma_insert_pos_range(
                        models(arena@),
                        handle_seq(pre_children),
                        models(arena@)[c as int].name_bytes(),
                    );
                    lemma_handle_seq_insert(
                        pre_children,
                        insert_pos(
                            models(arena@),
                            handle_seq(pre_children),
                            models(arena@)[c as int].name_bytes(),
                        ),
                        c,
                    );
                    assert(spec_build_step(*doc, j + 1) == Ok::<
                        (Seq<NodeModel>, Seq<int>),
                        ParseError,
                    >((models(arena@), handle_seq(children@))));
                }
            } else {
                proof {
                    assert(spec_build_step(*doc, j + 1) == Err::<
                        (Seq<NodeModel>, Seq<int>),
                        ParseError,
                    >(ParseError::TypeMismatch));
                    lemma_build_step_err_stays(*doc, j + 1, n as int);
                }
                return Err(ParseError::TypeMismatch);
            }
        } else {
            proof {
                assert(spec_build_step(*doc, j + 1) == spec_build_step(*doc, j as int));
            }
        }
        j = j + 1;
    }
    let ghost pre_push = arena@;
    let ghost csg = handle_seq(children@);
    let root_node = ConfigNode {
        name: "Root config node".to_owned(),
        description: "This is the root node of the configuration tree".to_owned(),
        command: String::new(),
        opens_external: false,
        children: if children.len() == 0 {
            Option::None
        } else {
            Option::Some(children)
        },
    };
    let ghost rootg = root_node@;
    arena.push(root_node);
    let root = arena.len() - 1;
    proof {
        assert(models(arena@) =~= models(pre_push).push(rootg));
        assert(arena@.subrange(0, pre_push.len() as int) =~= pre_push);
        lemma_models_prefix(pre_push, arena@);
        assert(rootg == NodeModel {
            name: root_name(),
            description: root_description(),
            command: Seq::empty(),
            opens_external: false,
            children: if csg.len() == 0 {
                None
            } else {
                Some(csg)
            },
        });
        assert(node_wf(models(arena@), root as int));
        assert(node_sorted(models(arena@), root as int));
        assert forall|i: int| 0 <= i < pre_push.len() implies node_wf(models(arena@), i)
            && node_sorted(models(arena@), i) by {
            lemma_node_facts_prefix(models(pre_push), models(arena@), i);
        }
    }
    let tree = ConfigTree { nodes: arena, root };
    proof {
        assert(tree@.wf());
    }
    Ok(AppConfig { eddie_config: eddie, config_tree: tree })
}

/// Declares the `toml` crate's table type (`toml::map::Map`), opaque here: it
/// is only carried into [`toml_tables_into`].
#[verifier::external_type_specification]
#[verifier::external_body]
#[verifier::reject_recursive_types(K)]
#[verifier::reject_recursive_types(V)]
pub struct ExTomlMap<K, V>(toml::map::Map<K, V>);

/// Declares the `toml` crate's value type, opaque here: it only appears as
/// the table type's parameter.
#[verifier::external_type_specification]
#[verifier::external_body]
pub struct ExTomlValue(toml::Value);

/// The parse of a configuration document's text, named: what the `toml`
/// parser returns for the text, reshaped into the table arena form.
pub uninterp spec fn toml_doc_of(text: Seq<char>) -> Result<TomlDoc, ParseError>;

/// Relies on the `toml` crate's `Map::iter` and `Value` variants: copies one
/// parsed table tree into the table arena, children before parents, keeping
/// entry order and telling strings, booleans, nested tables and other scalars
/// apart.
#[verifier::external_body]
fn toml_tables_into(t: &toml::Table, out: &mut Vec<TomlTable>) -> usize {
    let mut entries: Vec<TomlEntry> = Vec::new();
    for (k, item) in t.iter() {
        let value = match item {
            toml::Value::String(s) => TomlValue::ScalarString(s.clone()),
            toml::Value::Boolean(b) => TomlValue::ScalarBool(*b),
            toml::Value::Table(sub) => TomlValue::SubTable(toml_tables_into(sub, out)),
            _ => TomlValue::ScalarOther,
        };
        entries.push(TomlEntry { key: k.clone(), value });
    }
    out.push(TomlTable { entries });
    out.len() - 1
}

/// Relies on `str::parse::<toml::Table>`: the parse of a document is a
/// function of its text alone; a parse failure is an invalid document.  The
/// reshaped arena is well-formed because children are pushed before parents.
#[verifier::external_body]
fn parse_toml_text(content: &str) -> (r: Result<TomlDoc, ParseError>)
    ensures
        r == toml_doc_of(content@),
        r matches Ok(doc) ==> doc.wf(),
{
    match content.parse::<toml::Table>() {
        Ok(t) => {
            let mut tables: Vec<TomlTable> = Vec::new();
            let root = toml_tables_into(&t, &mut tables);
            Ok(TomlDoc { tables, root })
        },
        Err(_) => Err(ParseError::InvalidDocument),
    }
}

/// Reads a whole configuration from the merged text of the configuration
/// documents: parses the text and builds the launcher settings and the node
/// tree from it.
pub fn read_config(content: &str) -> (r: Result<AppConfig, ParseError>)
    ensures
        toml_doc_of(content@) matches Err(e) ==> r == Err::<AppConfig, ParseError>(e),
        toml_doc_of(content@) matches Ok(doc) ==> match spec_build(doc) {
            Ok(res) => {
                &&& r is Ok
                &&& r->Ok_0.config_tree@.nodes == res.0
                &&& r->Ok_0.config_tree@.root == res.1
                &&& r->Ok_0.eddie_config@ == res.2
                &&& r->Ok_0.config_tree@.wf()
            },
            Err(e) => r == Err::<AppConfig, ParseError>(e),
        },
{
    match parse_toml_text(content) {
        Result::Ok(doc) => build(&doc),
        Result::Err(e) => Err(e),
    }
}

} // verus!
