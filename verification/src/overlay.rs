//! The config overlay merge.
//!
//! `overlay` attaches a decoded config value tree onto a built option tree.
//! Grouping nodes and inline submodules hand each child the config entry
//! keyed by its name, consuming entries as it goes.  An `attrsOf`/`listOf`
//! submodule is a template: its children are replaced by one freshly
//! instantiated subtree per config entry, sorted afterwards.  Any structural
//! mismatch between the type and the config degrades to storing the raw
//! value on the node.

use vstd::prelude::*;

use crate::node::NodeView;
use crate::node::OptionNode;
use crate::node::OptionType;
use crate::node::OptionTypeView;
use crate::node::group_node_m;
use crate::node::lemma_nodes_view;
use crate::node::node_view;
use crate::node::nodes_view;
use crate::node::clone_nodes;
use crate::node::type_view;
use crate::node::opt_type_view;
use crate::parse::GuardedValueView;
use crate::parse::NixGuardedValue;
use crate::parse::find_index;
use crate::parse::guarded_entries_view;
use crate::parse::guarded_seq_view;
use crate::parse::guarded_view;
use crate::parse::lemma_find_index;
use crate::parse::lemma_find_index_witness;
use crate::parse::lemma_guarded_entries_view;
use crate::parse::lemma_guarded_seq_view;
use crate::parse::opt_guarded_view;
use crate::sort::sort_nodes_m;
use crate::sort::sort_siblings;
use crate::text::dec_digits;
use crate::text::push_decimal;

verus! {

/// The size of a config value, counting two per collection entry so that an
/// entry taken out of a collection is strictly smaller than the collection.
pub open spec fn gv_size(v: GuardedValueView) -> nat
    decreases v,
{
    match v {
        GuardedValueView::Attrs(m) => 1 + gv_entries_size(m),
        GuardedValueView::List(l) => 1 + gv_list_size(l),
        _ => 1,
    }
}

pub open spec fn gv_entries_size(m: Seq<(Seq<char>, GuardedValueView)>) -> nat
    decreases m,
{
    if m.len() == 0 {
        0
    } else {
        2 + gv_size(m[0].1) + gv_entries_size(m.drop_first())
    }
}

pub open spec fn gv_list_size(l: Seq<GuardedValueView>) -> nat
    decreases l,
{
    if l.len() == 0 {
        0
    } else {
        2 + gv_size(l[0]) + gv_list_size(l.drop_first())
    }
}

pub open spec fn ocfg_size(c: Option<GuardedValueView>) -> nat {
    match c {
        None => 0,
        Some(v) => 1 + gv_size(v),
    }
}

pub open spec fn node_size_m(n: NodeView) -> nat
    decreases n,
{
    1 + nodes_size_m(n.children)
}

pub open spec fn nodes_size_m(s: Seq<NodeView>) -> nat
    decreases s,
{
    if s.len() == 0 {
        0
    } else {
        node_size_m(s[0]) + nodes_size_m(s.drop_first())
    }
}

proof fn lemma_gv_entries_size_element(m: Seq<(Seq<char>, GuardedValueView)>, i: int)
    requires
        0 <= i < m.len(),
    ensures
        2 + gv_size(m[i].1) <= gv_entries_size(m),
    decreases m,
{
    if i > 0 {
        lemma_gv_entries_size_element(m.drop_first(), i - 1);
        assert(m.drop_first()[i - 1] == m[i]);
    }
}

proof fn lemma_gv_entries_size_remove(m: Seq<(Seq<char>, GuardedValueView)>, i: int)
    requires
        0 <= i < m.len(),
    ensures
        gv_entries_size(m.remove(i)) == gv_entries_size(m) - 2 - gv_size(m[i].1),
    decreases m,
{
    if i == 0 {
        assert(m.remove(0) =~= m.drop_first());
    } else {
        lemma_gv_entries_size_remove(m.drop_first(), i - 1);
        assert(m.drop_first()[i - 1] == m[i]);
        assert(m.remove(i).drop_first() =~= m.drop_first().remove(i - 1));
        assert(m.remove(i)[0] == m[0]);
        assert(m.remove(i).len() > 0);
    }
}

proof fn lemma_nodes_size_element(s: Seq<NodeView>, i: int)
    requires
        0 <= i < s.len(),
    ensures
        node_size_m(s[i]) <= nodes_size_m(s),
    decreases s,
{
    if i > 0 {
        lemma_nodes_size_element(s.drop_first(), i - 1);
        assert(s.drop_first()[i - 1] == s[i]);
    }
}

/// The size facts a walk over children and entries leans on: a taken entry
/// is smaller than the whole set, the remaining set no larger, and a child
/// smaller than the sibling sequence.
pub proof fn lemma_overlay_sizes(ch: Seq<NodeView>, m: Seq<(Seq<char>, GuardedValueView)>)
    requires
        ch.len() > 0,
    ensures
        remove_entry_m(m, ch[0].name).0 matches Some(v) ==> 1 + gv_size(v) < gv_entries_size(m),
        gv_entries_size(remove_entry_m(m, ch[0].name).1) <= gv_entries_size(m),
        node_size_m(ch[0]) <= nodes_size_m(ch),
        nodes_size_m(ch.drop_first()) < nodes_size_m(ch),
{
    lemma_find_index(m, ch[0].name);
    lemma_nodes_size_element(ch, 0);
    if find_index(m, ch[0].name) is Some {
        let i = find_index(m, ch[0].name)->Some_0;
        lemma_gv_entries_size_element(m, i);
        lemma_gv_entries_size_remove(m, i);
    }
}

/// The first entry keyed `k`, taken out of `m`; `m` unchanged where no entry
/// matches.
pub open spec fn remove_entry_m(m: Seq<(Seq<char>, GuardedValueView)>, k: Seq<char>) -> (
    Option<GuardedValueView>,
    Seq<(Seq<char>, GuardedValueView)>,
) {
    match find_index(m, k) {
        Some(i) => (Some(m[i].1), m.remove(i)),
        None => (None, m),
    }
}

/// The entries handed to the children: the config's entries where it is an
/// attribute set, nothing otherwise.
pub open spec fn attrs_entries_of(cfg: Option<GuardedValueView>) -> Seq<
    (Seq<char>, GuardedValueView),
> {
    match cfg {
        Some(GuardedValueView::Attrs(m)) => m,
        _ => Seq::empty(),
    }
}

/// The name of the `i`-th list element's synthetic node.
pub open spec fn element_name_text(i: nat) -> Seq<char> {
    "Element "@ + dec_digits(i)
}

/// The overlay of one config value onto one node.
///
/// A grouping node or an inline submodule hands each child the entry keyed
/// by the child's name, consuming it; children without an entry, and every
/// child when the config is absent or not an attribute set, recurse with no
/// value.  An `attrsOf` (`listOf`) submodule paired with an attribute set
/// (list) replaces its children with one freshly instantiated, overlaid
/// subtree per entry, sorted; paired with anything else it stores the raw
/// config as its value.  Every other option leaf stores the config as its
/// value.
pub open spec fn overlay_m(n: NodeView, cfg: Option<GuardedValueView>) -> NodeView
    decreases ocfg_size(cfg), node_size_m(n), 0int,
    via overlay_m_dec
{
    match n.option_type {
        None => NodeView {
            children: overlay_children_m(n.children, attrs_entries_of(cfg)),
            ..n
        },
        Some(t) => match t {
            OptionTypeView::AttrsOf(e) => match *e {
                OptionTypeView::Submodule(s) => match cfg {
                    Some(GuardedValueView::Attrs(m)) => NodeView {
                        children: sort_nodes_m(instantiate_attrs_m(m, s)),
                        ..n
                    },
                    _ => NodeView { value: cfg, ..n },
                },
                _ => NodeView { value: cfg, ..n },
            },
            OptionTypeView::ListOf(e) => match *e {
                OptionTypeView::Submodule(s) => match cfg {
                    Some(GuardedValueView::List(items)) => NodeView {
                        children: sort_nodes_m(instantiate_list_m(items, s, 0)),
                        ..n
                    },
                    _ => NodeView { value: cfg, ..n },
                },
                _ => NodeView { value: cfg, ..n },
            },
            OptionTypeView::Submodule(_) => NodeView {
                children: overlay_children_m(n.children, attrs_entries_of(cfg)),
                ..n
            },
            _ => NodeView { value: cfg, ..n },
        },
    }
}

#[via_fn]
proof fn overlay_m_dec(n: NodeView, cfg: Option<GuardedValueView>) {
}

/// The overlay of a set of config entries onto a child sequence, child by
/// child, each child consuming the first entry keyed by its name.
pub open spec fn overlay_children_m(
    children: Seq<NodeView>,
    m: Seq<(Seq<char>, GuardedValueView)>,
) -> Seq<NodeView>
    decreases gv_entries_size(m), nodes_size_m(children), 1int,
    via overlay_children_m_dec
{
    if children.len() == 0 {
        Seq::empty()
    } else {
        let fr = remove_entry_m(m, children[0].name);
        seq![overlay_m(children[0], fr.0)] + overlay_children_m(children.drop_first(), fr.1)
    }
}

#[via_fn]
proof fn overlay_children_m_dec(children: Seq<NodeView>, m: Seq<(Seq<char>, GuardedValueView)>) {
    if children.len() > 0 {
        lemma_find_index(m, children[0].name);
        lemma_nodes_size_element(children, 0);
        if find_index(m, children[0].name) is Some {
            let i = find_index(m, children[0].name)->Some_0;
            lemma_gv_entries_size_element(m, i);
            lemma_gv_entries_size_remove(m, i);
        }
    }
}

/// One freshly instantiated subtree per attribute entry: a grouping node
/// named by the key, its children the submodule's nodes, overlaid with the
/// entry's value.
pub open spec fn instantiate_attrs_m(
    m: Seq<(Seq<char>, GuardedValueView)>,
    s: Seq<NodeView>,
) -> Seq<NodeView>
    decreases gv_entries_size(m), 0int, 1int,
{
    if m.len() == 0 {
        Seq::empty()
    } else {
        seq![overlay_m(group_node_m(m[0].0, sort_nodes_m(s)), Some(m[0].1))]
            + instantiate_attrs_m(m.drop_first(), s)
    }
}

/// One freshly instantiated subtree per list item, named `Element i`.
pub open spec fn instantiate_list_m(
    items: Seq<GuardedValueView>,
    s: Seq<NodeView>,
    k: nat,
) -> Seq<NodeView>
    decreases gv_list_size(items), 0int, 1int,
{
    if items.len() == 0 {
        Seq::empty()
    } else {
        seq![overlay_m(group_node_m(element_name_text(k), sort_nodes_m(s)), Some(items[0]))]
            + instantiate_list_m(items.drop_first(), s, k + 1)
    }
}

/// The display name of the `i`-th list element.
fn element_name(i: usize) -> (r: String)
    ensures
        r@ == element_name_text(i as nat),
{
    let mut s = "Element ".to_owned();
    push_decimal(i as u64, &mut s);
    s
}

/// Takes the first entry keyed by `key` out of `entries`.
fn take_entry(entries: Vec<(String, NixGuardedValue)>, key: &String) -> (r: (
    Option<NixGuardedValue>,
    Vec<(String, NixGuardedValue)>,
))
    ensures
        opt_guarded_view(r.0) == remove_entry_m(guarded_entries_view(entries@), key@).0,
        guarded_entries_view(r.1@) == remove_entry_m(guarded_entries_view(entries@), key@).1,
{
    let ghost ev = guarded_entries_view(entries@);
    proof {
        lemma_guarded_entries_view(entries@);
    }
    match crate::text::find_key_pairs(&entries, key.as_str()) {
        Some(i) => {
            proof {
                assert forall|j: int| 0 <= j < i implies (#[trigger] ev[j]).0 != key@ by {
                    assert(entries@[j].0@ != key@);
                }
                lemma_find_index_witness(ev, key@, i as int);
            }
            let mut e = entries;
            let ghost orig = e@;
            let pair = e.remove(i);
            proof {
                lemma_guarded_entries_view(orig);
                lemma_guarded_entries_view(e@);
                assert forall|j: int| 0 <= j < e@.len() implies guarded_entries_view(e@)[j]
                    == ev.remove(i as int)[j] by {
                    if j < i {
                        assert(e@[j] == orig[j]);
                    } else {
                        assert(e@[j] == orig[j + 1]);
                    }
                }
                assert(guarded_entries_view(e@) =~= ev.remove(i as int));
            }
            (Some(pair.1), e)
        },
        None => {
            proof {
                assert forall|j: int| 0 <= j < ev.len() implies (#[trigger] ev[j]).0 != key@ by {
                    assert(entries@[j].0@ != key@);
                }
                lemma_find_index(ev, key@);
            }
            (None, entries)
        },
    }
}

/// Overlays one config value onto one node; see `overlay_m` for the policy.
fn overlay(node: OptionNode, cfg: Option<NixGuardedValue>) -> (r: OptionNode)
    ensures
        r@ == overlay_m(node@, opt_guarded_view(cfg)),
    decreases ocfg_size(opt_guarded_view(cfg)), node_size_m(node@), 0int,
{
    let ghost n0 = node_view(node);
    let ghost c0 = opt_guarded_view(cfg);
    let OptionNode { name, documentation, option_type, value, children, expanded } = node;
    match option_type {
        None => {
            let entries = match cfg {
                Some(NixGuardedValue::Attrs(m)) => m,
                _ => Vec::new(),
            };
            proof {
                assert(guarded_entries_view(entries@) =~= attrs_entries_of(c0));
            }
            let new_children = overlay_children(children, entries);
            let out = OptionNode {
                name,
                documentation,
                option_type: None,
                value,
                children: new_children,
                expanded,
            };
            proof {
                assert(n0.option_type is None);
                assert(overlay_m(n0, c0) == NodeView {
                    children: overlay_children_m(n0.children, attrs_entries_of(c0)),
                    ..n0
                });
                assert(nodes_view(out.children@) == overlay_children_m(
                    n0.children,
                    attrs_entries_of(c0),
                ));
                assert(out@ == overlay_m(n0, c0));
            }
            out
        },
        Some(t) => match t {
            OptionType::AttrsOf(e) => {
                if matches!(&*e, OptionType::Submodule(_)) {
                    proof {
                        assert(type_view(*e) is Submodule);
                    }
                    match cfg {
                        Some(NixGuardedValue::Attrs(m)) => {
                            proof {
                                assert(decreases_to!(c0 => c0->Some_0));
                                assert(decreases_to!(c0->Some_0 => c0->Some_0->Attrs_0));
                            }
                            let inst = match &*e {
                                OptionType::Submodule(s) => {
                                    proof {
                                        assert(type_view(*e) == OptionTypeView::Submodule(
                                            nodes_view(s@),
                                        ));
                                    }
                                    instantiate_attrs(m, s)
                                },
                                _ => {
                                    proof {
                                        assert(false);
                                    }
                                    Vec::new()
                                },
                            };
                            let sorted = sort_siblings(inst);
                            let out = OptionNode {
                                name,
                                documentation,
                                option_type: Some(OptionType::AttrsOf(e)),
                                value,
                                children: sorted,
                                expanded,
                            };
                            proof {
                                let sv = type_view(*e)->Submodule_0;
                                assert(n0.option_type == opt_type_view(
                                    Some(OptionType::AttrsOf(e)),
                                ));
                                assert(opt_type_view(Some(OptionType::AttrsOf(e))) == Some(
                                    type_view(OptionType::AttrsOf(e)),
                                ));
                                assert(type_view(OptionType::AttrsOf(e))
                                    == OptionTypeView::AttrsOf(Box::new(type_view(*e))));
                                assert(n0.option_type == Some(
                                    OptionTypeView::AttrsOf(Box::new(type_view(*e))),
                                ));
                                assert(out@.option_type == n0.option_type);
                                assert(overlay_m(n0, c0) == NodeView {
                                    children: sort_nodes_m(
                                        instantiate_attrs_m(attrs_entries_of(c0), sv),
                                    ),
                                    ..n0
                                });
                                assert(out@.children == sort_nodes_m(
                                    instantiate_attrs_m(attrs_entries_of(c0), sv),
                                ));
                                assert(out@ == overlay_m(n0, c0));
                            }
                            out
                        },
                        other => {
                            let out = OptionNode {
                                name,
                                documentation,
                                option_type: Some(OptionType::AttrsOf(e)),
                                value: other,
                                children,
                                expanded,
                            };
                            proof {
                                assert(n0.option_type == Some(
                                    OptionTypeView::AttrsOf(Box::new(type_view(*e))),
                                ));
                                assert(out@.option_type == n0.option_type);
                                assert(overlay_m(n0, c0) == NodeView { value: c0, ..n0 });
                                assert(out@.value == c0);
                                assert(out@ == overlay_m(n0, c0));
                            }
                            out
                        },
                    }
                } else {
                    proof {
                        assert(!(type_view(*e) is Submodule));
                    }
                    let out = OptionNode {
                        name,
                        documentation,
                        option_type: Some(OptionType::AttrsOf(e)),
                        value: cfg,
                        children,
                        expanded,
                    };
                    proof {
                        assert(out@ == overlay_m(n0, c0));
                    }
                    out
                }
            },
            OptionType::ListOf(e) => {
                if matches!(&*e, OptionType::Submodule(_)) {
                    proof {
                        assert(type_view(*e) is Submodule);
                    }
                    match cfg {
                        Some(NixGuardedValue::List(items)) => {
                            proof {
                                assert(decreases_to!(c0 => c0->Some_0));
                                assert(decreases_to!(c0->Some_0 => c0->Some_0->List_0));
                            }
                            proof {
                                vstd::std_specs::vec::axiom_spec_len(&items);
                            }
                            let inst = match &*e {
                                OptionType::Submodule(s) => {
                                    proof {
                                        assert(type_view(*e) == OptionTypeView::Submodule(
                                            nodes_view(s@),
                                        ));
                                    }
                                    instantiate_list(items, s, 0)
                                },
                                _ => {
                                    proof {
                                        assert(false);
                                    }
                                    Vec::new()
                                },
                            };
                            let sorted = sort_siblings(inst);
                            let out = OptionNode {
                                name,
                                documentation,
                                option_type: Some(OptionType::ListOf(e)),
                                value,
                                children: sorted,
                                expanded,
                            };
                            proof {
                                assert(out@ == overlay_m(n0, c0));
                            }
                            out
                        },
                        other => {
                            let out = OptionNode {
                                name,
                                documentation,
                                option_type: Some(OptionType::ListOf(e)),
                                value: other,
                                children,
                                expanded,
                            };
                            proof {
                                assert(out@ == overlay_m(n0, c0));
                            }
                            out
                        },
                    }
                } else {
                    proof {
                        assert(!(type_view(*e) is Submodule));
                    }
                    let out = OptionNode {
                        name,
                        documentation,
                        option_type: Some(OptionType::ListOf(e)),
                        value: cfg,
                        children,
                        expanded,
                    };
                    proof {
                        assert(out@ == overlay_m(n0, c0));
                    }
                    out
                }
            },
            OptionType::Submodule(s) => {
                let entries = match cfg {
                    Some(NixGuardedValue::Attrs(m)) => m,
                    _ => Vec::new(),
                };
                proof {
                    assert(guarded_entries_view(entries@) =~= attrs_entries_of(c0));
                }
                let new_children = overlay_children(children, entries);
                let out = OptionNode {
                    name,
                    documentation,
                    option_type: Some(OptionType::Submodule(s)),
                    value,
                    children: new_children,
                    expanded,
                };
                proof {
                    assert(out@ == overlay_m(n0, c0));
                }
                out
            },
            other_type => {
                let out = OptionNode {
                    name,
                    documentation,
                    option_type: Some(other_type),
                    value: cfg,
                    children,
                    expanded,
                };
                proof {
                    assert(out@ == overlay_m(n0, c0));
                }
                out
            },
        },
    }
}

/// Overlays config entries onto a child sequence, child by child.
fn overlay_children(children: Vec<OptionNode>, entries: Vec<(String, NixGuardedValue)>) -> (r: Vec<
    OptionNode,
>)
    ensures
        nodes_view(r@) == overlay_children_m(
            nodes_view(children@),
            guarded_entries_view(entries@),
        ),
    decreases
            gv_entries_size(guarded_entries_view(entries@)),
            nodes_size_m(nodes_view(children@)),
            1int,
{
    let ghost cv = nodes_view(children@);
    let ghost ev = guarded_entries_view(entries@);
    proof {
        lemma_nodes_view(children@);
        lemma_guarded_entries_view(entries@);
    }
    let mut children = children;
    if children.len() == 0 {
        Vec::new()
    } else {
        let c = children.remove(0);
        let ghost cview = node_view(c);
        let fr = take_entry(entries, &c.name);
        let found = fr.0;
        let entries2 = fr.1;
        proof {
            lemma_find_index(ev, cview.name);
            lemma_nodes_size_element(cv, 0);
            if find_index(ev, cview.name) is Some {
                let i = find_index(ev, cview.name)->Some_0;
                lemma_gv_entries_size_element(ev, i);
                lemma_gv_entries_size_remove(ev, i);
            }
        }
        let oc = overlay(c, found);
        proof {
            assert(nodes_view(children@) =~= cv.drop_first()) by {
                lemma_nodes_view(children@);
                assert forall|j: int| 0 <= j < children@.len() implies nodes_view(children@)[j]
                    == cv.drop_first()[j] by {
                    assert(nodes_view(children@)[j] == node_view(children@[j]));
                }
            }
        }
        let mut rest = overlay_children(children, entries2);
        let ghost rest0 = rest@;
        rest.insert(0, oc);
        proof {
            lemma_nodes_view(rest@);
            lemma_nodes_view(rest0);
            assert(rest@ =~= seq![oc] + rest0);
            let goal = overlay_children_m(cv, ev);
            assert forall|j: int| 0 <= j < rest@.len() implies nodes_view(rest@)[j] == goal[j] by {
                if j > 0 {
                    assert(rest@[j] == rest0[j - 1]);
                    assert(nodes_view(rest0)[j - 1] == node_view(rest0[j - 1]));
                }
            }
            assert(nodes_view(rest@) =~= goal);
        }
        rest
    }
}

/// Builds one overlaid subtree per attribute entry.
fn instantiate_attrs(m: Vec<(String, NixGuardedValue)>, s: &Vec<OptionNode>) -> (r: Vec<
    OptionNode,
>)
    ensures
        nodes_view(r@) == instantiate_attrs_m(guarded_entries_view(m@), nodes_view(s@)),
    decreases gv_entries_size(guarded_entries_view(m@)), 0int, 1int,
{
    let ghost mv = guarded_entries_view(m@);
    proof {
        lemma_guarded_entries_view(m@);
    }
    let mut m = m;
    if m.len() == 0 {
        Vec::new()
    } else {
        let pair = m.remove(0);
        let fresh = crate::sort::sort_siblings(clone_nodes(s));
        let base = OptionNode {
            name: pair.0,
            documentation: None,
            option_type: None,
            value: None,
            children: fresh,
            expanded: false,
        };
        proof {
            assert(node_view(base) == group_node_m(mv[0].0, sort_nodes_m(nodes_view(s@))));
        }
        let inst = overlay(base, Some(pair.1));
        proof {
            assert(guarded_entries_view(m@) =~= mv.drop_first()) by {
                lemma_guarded_entries_view(m@);
                assert forall|j: int| 0 <= j < m@.len() implies guarded_entries_view(m@)[j]
                    == mv.drop_first()[j] by {
                    assert(guarded_entries_view(m@)[j] == (m@[j].0@, guarded_view(m@[j].1)));
                }
            }
        }
        let mut rest = instantiate_attrs(m, s);
        let ghost rest0 = rest@;
        rest.insert(0, inst);
        proof {
            lemma_nodes_view(rest@);
            lemma_nodes_view(rest0);
            assert(rest@ =~= seq![inst] + rest0);
            let goal = instantiate_attrs_m(mv, nodes_view(s@));
            assert forall|j: int| 0 <= j < rest@.len() implies nodes_view(rest@)[j] == goal[j] by {
                if j > 0 {
                    assert(rest@[j] == rest0[j - 1]);
                    assert(nodes_view(rest0)[j - 1] == node_view(rest0[j - 1]));
                }
            }
            assert(nodes_view(rest@) =~= goal);
        }
        rest
    }
}

/// Builds one overlaid subtree per list item.
fn instantiate_list(items: Vec<NixGuardedValue>, s: &Vec<OptionNode>, k: usize) -> (r: Vec<
    OptionNode,
>)
    requires
        k + items@.len() <= usize::MAX,
    ensures
        nodes_view(r@) == instantiate_list_m(guarded_seq_view(items@), nodes_view(s@), k as nat),
    decreases gv_list_size(guarded_seq_view(items@)), 0int, 1int,
{
    let ghost iv = guarded_seq_view(items@);
    proof {
        lemma_guarded_seq_view(items@);
    }
    let mut items = items;
    if items.len() == 0 {
        Vec::new()
    } else {
        let item = items.remove(0);
        let fresh = crate::sort::sort_siblings(clone_nodes(s));
        let base = OptionNode {
            name: element_name(k),
            documentation: None,
            option_type: None,
            value: None,
            children: fresh,
            expanded: false,
        };
        proof {
            assert(node_view(base) == group_node_m(
                element_name_text(k as nat),
                sort_nodes_m(nodes_view(s@)),
            ));
        }
        let inst = overlay(base, Some(item));
        proof {
            assert(guarded_seq_view(items@) =~= iv.drop_first()) by {
                lemma_guarded_seq_view(items@);
                assert forall|j: int| 0 <= j < items@.len() implies guarded_seq_view(items@)[j]
                    == iv.drop_first()[j] by {
                    assert(guarded_seq_view(items@)[j] == guarded_view(items@[j]));
                }
            }
        }
        let mut rest = instantiate_list(items, s, k + 1);
        let ghost rest0 = rest@;
        rest.insert(0, inst);
        proof {
            lemma_nodes_view(rest@);
            lemma_nodes_view(rest0);
            assert(rest@ =~= seq![inst] + rest0);
            let goal = instantiate_list_m(iv, nodes_view(s@), k as nat);
            assert forall|j: int| 0 <= j < rest@.len() implies nodes_view(rest@)[j] == goal[j] by {
                if j > 0 {
                    assert(rest@[j] == rest0[j - 1]);
                    assert(nodes_view(rest0)[j - 1] == node_view(rest0[j - 1]));
                }
            }
            assert(nodes_view(rest@) =~= goal);
        }
        rest
    }
}

impl OptionNode {
    /// Overlays a decoded config value onto this tree, in place.
    pub fn add_config(&mut self, cfg: Option<NixGuardedValue>)
        ensures
            final(self)@ == overlay_m(old(self)@, opt_guarded_view(cfg)),
    {
        let mut tmp = OptionNode {
            name: String::new(),
            documentation: None,
            option_type: None,
            value: None,
            children: Vec::new(),
            expanded: false,
        };
        core::mem::swap(self, &mut tmp);
        let out = overlay(tmp, cfg);
        *self = out;
    }

    /// A freshly instantiated submodule subtree: a grouping node over the
    /// submodule's nodes, overlaid with the given config.
    pub fn new_from_submodule(
        name: String,
        sub: Vec<OptionNode>,
        cfg: Option<NixGuardedValue>,
    ) -> (r: Self)
        ensures
            r@ == overlay_m(
                group_node_m(name@, sort_nodes_m(nodes_view(sub@))),
                opt_guarded_view(cfg),
            ),
    {
        let sorted = sort_siblings(sub);
        let mut node = OptionNode {
            name,
            documentation: None,
            option_type: None,
            value: None,
            children: sorted,
            expanded: false,
        };
        node.add_config(cfg);
        node
    }
}

} // verus!
