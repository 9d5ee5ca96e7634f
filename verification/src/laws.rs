//! Laws of the overlay merge.
//!
//! Each proof function here states a property of the tree operations over
//! their mathematical forms: what the overlay does to `attrsOf` and `listOf`
//! submodule templates, how mismatched configs degrade, and that overlaying
//! the same config twice changes nothing further.

use vstd::prelude::*;

use crate::node::NodeView;
use crate::node::OptionTypeView;
use crate::node::group_node_m;
use crate::node::build_node_m;
use crate::node::build_set_m;
use crate::node::type_of_raw;
use crate::parse::NixOptionView;
use crate::parse::NixValueView;
use crate::overlay::attrs_entries_of;
use crate::overlay::element_name_text;
use crate::overlay::instantiate_attrs_m;
use crate::overlay::instantiate_list_m;
use crate::overlay::overlay_m;
use crate::overlay::overlay_children_m;
use crate::overlay::remove_entry_m;
use crate::parse::GuardedValueView;
use crate::sort::insert_sorted_m;
use crate::sort::lex_le;
use crate::sort::name_class;
use crate::sort::node_le;
use crate::sort::sort_nodes_m;
use crate::text::dec_digits;
use crate::text::digit_char;

verus! {

/// The overlay never changes a node's name, documentation, type or display
/// state: only its value and its children.
pub proof fn lemma_overlay_preserves_shape(n: NodeView, cfg: Option<GuardedValueView>)
    ensures
        overlay_m(n, cfg).name == n.name,
        overlay_m(n, cfg).documentation == n.documentation,
        overlay_m(n, cfg).option_type == n.option_type,
        overlay_m(n, cfg).expanded == n.expanded,
{
}

/// Instantiation of an `attrsOf` submodule makes one child per config entry,
/// in entry order: a grouping node named by the key, carrying the
/// submodule's nodes, overlaid with the entry's value.
pub proof fn lemma_instantiate_attrs(m: Seq<(Seq<char>, GuardedValueView)>, s: Seq<NodeView>)
    ensures
        instantiate_attrs_m(m, s).len() == m.len(),
        forall|i: int|
            0 <= i < m.len() ==> instantiate_attrs_m(m, s)[i] == overlay_m(
                group_node_m((#[trigger] m[i]).0, sort_nodes_m(s)),
                Some(m[i].1),
            ),
    decreases m.len(),
{
    if m.len() > 0 {
        lemma_instantiate_attrs(m.drop_first(), s);
        assert forall|i: int| 0 <= i < m.len() implies instantiate_attrs_m(m, s)[i] == overlay_m(
            group_node_m((#[trigger] m[i]).0, sort_nodes_m(s)),
            Some(m[i].1),
        ) by {
            if i > 0 {
                assert(m.drop_first()[i - 1] == m[i]);
            }
        }
    }
}

/// Instantiation of a `listOf` submodule makes one child per list item, in
/// item order, named `Element k`, `Element k+1`, and so on.
pub proof fn lemma_instantiate_list(items: Seq<GuardedValueView>, s: Seq<NodeView>, k: nat)
    ensures
        instantiate_list_m(items, s, k).len() == items.len(),
        forall|i: int|
            0 <= i < items.len() ==> instantiate_list_m(items, s, k)[i] == overlay_m(
                group_node_m(element_name_text((k + i) as nat), sort_nodes_m(s)),
                Some(#[trigger] items[i]),
            ),
    decreases items.len(),
{
    if items.len() > 0 {
        lemma_instantiate_list(items.drop_first(), s, k + 1);
        assert forall|i: int|
            0 <= i < items.len() implies instantiate_list_m(items, s, k)[i] == overlay_m(
            group_node_m(element_name_text((k + i) as nat), sort_nodes_m(s)),
            Some(#[trigger] items[i]),
        ) by {
            if i > 0 {
                assert(items.drop_first()[i - 1] == items[i]);
            }
        }
    }
}

/// Overlaying an attribute set onto an `attrsOf` submodule node replaces the
/// children entirely: one freshly instantiated subtree per entry, sorted.
/// An empty set produces no children at all.
pub proof fn lemma_attrs_of_replaces_children(
    n: NodeView,
    s: Seq<NodeView>,
    m: Seq<(Seq<char>, GuardedValueView)>,
)
    requires
        n.option_type == Some(
            OptionTypeView::AttrsOf(Box::new(OptionTypeView::Submodule(s))),
        ),
    ensures
        overlay_m(n, Some(GuardedValueView::Attrs(m))).children == sort_nodes_m(
            instantiate_attrs_m(m, s),
        ),
        m.len() == 0 ==> overlay_m(n, Some(GuardedValueView::Attrs(m))).children.len() == 0,
{
    crate::sort::lemma_sort_nodes(instantiate_attrs_m(m, s));
    lemma_instantiate_attrs(m, s);
}

/// The round trip for a two-entry attribute set: the overlay produces
/// exactly two children, the instantiated subtrees for the two entries, in
/// sorted order.
pub proof fn lemma_attrs_of_round_trip(
    n: NodeView,
    s: Seq<NodeView>,
    a: (Seq<char>, GuardedValueView),
    b: (Seq<char>, GuardedValueView),
)
    requires
        n.option_type == Some(
            OptionTypeView::AttrsOf(Box::new(OptionTypeView::Submodule(s))),
        ),
    ensures
        ({
            let r = overlay_m(n, Some(GuardedValueView::Attrs(seq![a, b])));
            let ia = overlay_m(group_node_m(a.0, sort_nodes_m(s)), Some(a.1));
            let ib = overlay_m(group_node_m(b.0, sort_nodes_m(s)), Some(b.1));
            r.children.len() == 2 && (if node_le(ia, ib) {
                r.children == seq![ia, ib]
            } else {
                r.children == seq![ib, ia]
            })
        }),
{
    let m = seq![a, b];
    let ia = overlay_m(group_node_m(a.0, sort_nodes_m(s)), Some(a.1));
    let ib = overlay_m(group_node_m(b.0, sort_nodes_m(s)), Some(b.1));
    lemma_attrs_of_replaces_children(n, s, m);
    lemma_instantiate_attrs(m, s);
    let inst = instantiate_attrs_m(m, s);
    assert(inst =~= seq![ia, ib]);
    assert(inst.drop_last() =~= seq![ia]);
    assert(seq![ia].drop_last() =~= Seq::<NodeView>::empty());
    assert(crate::sort::sorted_nodes(seq![ia]));
    crate::sort::lemma_sort_idempotent(seq![ia]);
    assert(sort_nodes_m(inst) == insert_sorted_m(ib, seq![ia]));
    if node_le(ia, ib) {
        assert(insert_sorted_m(ib, seq![ia]) =~= seq![ia].push(ib));
        assert(seq![ia].push(ib) =~= seq![ia, ib]);
    } else {
        assert(insert_sorted_m(ib, seq![ia]) == insert_sorted_m(ib, seq![ia].drop_last()).push(
            ia,
        ));
        assert(insert_sorted_m(ib, seq![ia].drop_last()) =~= seq![ib]);
        assert(seq![ib].push(ia) =~= seq![ib, ia]);
    }
}

/// Overlaying a list onto a `listOf` submodule node replaces the children
/// with the instantiated subtrees `Element 0`, `Element 1`, ..., sorted.
pub proof fn lemma_list_of_replaces_children(
    n: NodeView,
    s: Seq<NodeView>,
    items: Seq<GuardedValueView>,
)
    requires
        n.option_type == Some(
            OptionTypeView::ListOf(Box::new(OptionTypeView::Submodule(s))),
        ),
    ensures
        overlay_m(n, Some(GuardedValueView::List(items))).children == sort_nodes_m(
            instantiate_list_m(items, s, 0),
        ),
{
}

/// The element names order by index for single-digit indices, so a
/// two-element list keeps its item order through the sort: `Element 0`
/// before `Element 1`.
pub proof fn lemma_list_of_indexing(
    n: NodeView,
    s: Seq<NodeView>,
    x: GuardedValueView,
    y: GuardedValueView,
)
    requires
        n.option_type == Some(
            OptionTypeView::ListOf(Box::new(OptionTypeView::Submodule(s))),
        ),
    ensures
        ({
            let r = overlay_m(n, Some(GuardedValueView::List(seq![x, y])));
            let i0 = overlay_m(group_node_m(element_name_text(0), sort_nodes_m(s)), Some(x));
            let i1 = overlay_m(group_node_m(element_name_text(1), sort_nodes_m(s)), Some(y));
            r.children == seq![i0, i1]
        }),
{
    let items = seq![x, y];
    let i0 = overlay_m(group_node_m(element_name_text(0), sort_nodes_m(s)), Some(x));
    let i1 = overlay_m(group_node_m(element_name_text(1), sort_nodes_m(s)), Some(y));
    lemma_list_of_replaces_children(n, s, items);
    lemma_instantiate_list(items, s, 0);
    let inst = instantiate_list_m(items, s, 0);
    assert(inst =~= seq![i0, i1]);
    lemma_element_name_order();
    assert(node_le(i0, i1)) by {
        lemma_overlay_preserves_shape(group_node_m(element_name_text(0), sort_nodes_m(s)), Some(x));
        lemma_overlay_preserves_shape(group_node_m(element_name_text(1), sort_nodes_m(s)), Some(y));
    }
    assert(inst.drop_last() =~= seq![i0]);
    assert(seq![i0].drop_last() =~= Seq::<NodeView>::empty());
    assert(crate::sort::sorted_nodes(seq![i0]));
    crate::sort::lemma_sort_idempotent(seq![i0]);
    assert(sort_nodes_m(inst) == insert_sorted_m(i1, seq![i0]));
    assert(insert_sorted_m(i1, seq![i0]) =~= seq![i0].push(i1));
    assert(seq![i0].push(i1) =~= seq![i0, i1]);
}

/// `Element 0` orders strictly before `Element 1` under the sibling policy.
proof fn lemma_element_name_order()
    ensures
        name_class(element_name_text(0)) == 1,
        name_class(element_name_text(1)) == 1,
        lex_le(element_name_text(0), element_name_text(1)),
        !lex_le(element_name_text(1), element_name_text(0)),
{
    reveal_strlit("Element ");
    reveal_strlit("enable");
    let e0 = element_name_text(0);
    let e1 = element_name_text(1);
    assert(dec_digits(0) == seq![digit_char(0)]);
    assert(dec_digits(1) == seq![digit_char(1)]);
    assert(e0.len() == 9);
    assert(e1.len() == 9);
    assert(e0 != "enable"@);
    assert(e1 != "enable"@);
    lemma_lex_prefix_digit();
}

/// The lexicographic comparison of the two element names comes down to the
/// digit: `'0'` before `'1'`.
proof fn lemma_lex_prefix_digit()
    ensures
        lex_le(element_name_text(0), element_name_text(1)),
        !lex_le(element_name_text(1), element_name_text(0)),
{
    reveal_strlit("Element ");
    let e0 = element_name_text(0);
    let e1 = element_name_text(1);
    assert(dec_digits(0) == seq![digit_char(0)]);
    assert(dec_digits(1) == seq![digit_char(1)]);
    crate::sort::lemma_lex_le_skip(e0, e1, 8);
    crate::sort::lemma_lex_le_skip(e1, e0, 8);
    assert(e0.skip(8) =~= seq!['0']);
    assert(e1.skip(8) =~= seq!['1']);
    assert(lex_le(seq!['0'], seq!['1']));
    assert(!lex_le(seq!['1'], seq!['0']));
}

/// Mismatch fallback: overlaying anything but an attribute set onto an
/// `attrsOf` submodule node leaves the children untouched and stores the
/// raw config as the node's value.
pub proof fn lemma_mismatch_fallback(
    n: NodeView,
    s: Seq<NodeView>,
    cfg: Option<GuardedValueView>,
)
    requires
        n.option_type == Some(
            OptionTypeView::AttrsOf(Box::new(OptionTypeView::Submodule(s))),
        ),
        !(cfg matches Some(GuardedValueView::Attrs(_))),
    ensures
        overlay_m(n, cfg).children == n.children,
        overlay_m(n, cfg).value == cfg,
{
}

/// Overlay idempotence: overlaying the same config twice yields the same
/// tree as overlaying it once.  On a plain leaf this says the stored value
/// is the same after one overlay and after two.
pub proof fn lemma_overlay_idempotent(n: NodeView, cfg: Option<GuardedValueView>)
    ensures
        overlay_m(overlay_m(n, cfg), cfg) == overlay_m(n, cfg),
    decreases crate::overlay::ocfg_size(cfg), crate::overlay::node_size_m(n), 0int,
{
    let r = overlay_m(n, cfg);
    lemma_overlay_preserves_shape(n, cfg);
    match n.option_type {
        None => {
            lemma_overlay_children_idempotent(n.children, attrs_entries_of(cfg));
            assert(overlay_m(r, cfg) =~= r);
        },
        Some(t) => match t {
            OptionTypeView::AttrsOf(e) => {
                assert(overlay_m(r, cfg) =~= r);
            },
            OptionTypeView::ListOf(e) => {
                assert(overlay_m(r, cfg) =~= r);
            },
            OptionTypeView::Submodule(_) => {
                lemma_overlay_children_idempotent(n.children, attrs_entries_of(cfg));
                assert(overlay_m(r, cfg) =~= r);
            },
            _ => {
                assert(overlay_m(r, cfg) =~= r);
            },
        },
    }
}

/// Idempotence of the child walk: handing the same entries to the overlaid
/// children again changes nothing, since the overlay keeps every child's
/// name.
pub proof fn lemma_overlay_children_idempotent(
    ch: Seq<NodeView>,
    m: Seq<(Seq<char>, GuardedValueView)>,
)
    ensures
        overlay_children_m(overlay_children_m(ch, m), m) == overlay_children_m(ch, m),
    decreases crate::overlay::gv_entries_size(m), crate::overlay::nodes_size_m(ch), 1int,
{
    let r = overlay_children_m(ch, m);
    if ch.len() == 0 {
        assert(overlay_children_m(r, m) =~= r);
    } else {
        let fr = remove_entry_m(m, ch[0].name);
        lemma_overlay_preserves_shape(ch[0], fr.0);
        crate::parse::lemma_find_index(m, ch[0].name);
        crate::overlay::lemma_overlay_sizes(ch, m);
        lemma_overlay_idempotent(ch[0], fr.0);
        lemma_overlay_children_idempotent(ch.drop_first(), fr.1);
        assert(r[0] == overlay_m(ch[0], fr.0));
        assert(r.drop_first() =~= overlay_children_m(ch.drop_first(), fr.1));
        assert(r[0].name == ch[0].name);
        assert(overlay_children_m(r, m) =~= r);
    }
}

/// Building a one-entry set makes a grouping node with that one child.
pub proof fn lemma_build_single_group(name: Seq<char>, k: Seq<char>, v: NixValueView)
    ensures
        build_node_m(name, NixValueView::Group(seq![(k, v)])) == group_node_m(
            name,
            seq![build_node_m(k, v)],
        ),
{
    let entries = seq![(k, v)];
    assert(entries.drop_first() =~= Seq::<(Seq<char>, NixValueView)>::empty());
    assert(build_set_m(entries.drop_first()) =~= Seq::<NodeView>::empty());
    assert(build_set_m(entries) =~= seq![build_node_m(k, v)]);
    assert(crate::sort::sorted_nodes(seq![build_node_m(k, v)]));
    crate::sort::lemma_sort_idempotent(seq![build_node_m(k, v)]);
}

/// Overlaying a one-entry attribute set onto a grouping node with one child
/// of that name overlays the entry's value onto the child.
pub proof fn lemma_overlay_single_group(
    name: Seq<char>,
    child: NodeView,
    key: Seq<char>,
    v: GuardedValueView,
)
    requires
        child.name == key,
    ensures
        overlay_m(
            group_node_m(name, seq![child]),
            Some(GuardedValueView::Attrs(seq![(key, v)])),
        ) == group_node_m(name, seq![overlay_m(child, Some(v))]),
{
    let g = group_node_m(name, seq![child]);
    let m = seq![(key, v)];
    assert(crate::parse::find_index(m, child.name) == Some(0int));
    assert(m.remove(0) =~= Seq::<(Seq<char>, GuardedValueView)>::empty());
    assert(remove_entry_m(m, child.name) == (
        Some(v),
        Seq::<(Seq<char>, GuardedValueView)>::empty(),
    ));
    assert(seq![child].drop_first() =~= Seq::<NodeView>::empty());
    assert(overlay_children_m(
        seq![child].drop_first(),
        remove_entry_m(m, child.name).1,
    ) =~= Seq::<NodeView>::empty());
    assert(overlay_children_m(seq![child], m) =~= seq![overlay_m(child, Some(v))]);
    assert(overlay_m(g, Some(GuardedValueView::Attrs(m))) =~= group_node_m(
        name,
        seq![overlay_m(child, Some(v))],
    ));
}

/// End to end: a three-level schema whose leaf is a boolean option, merged
/// with the matching three-level config, yields a chain of grouping nodes
/// ending in the option leaf carrying the config's boolean.
pub proof fn lemma_end_to_end(
    root: Seq<char>,
    n1: Seq<char>,
    n2: Seq<char>,
    n3: Seq<char>,
    opt: NixOptionView,
)
    requires
        type_of_raw(opt.type_value) == OptionTypeView::Bool,
    ensures
        ({
            let schema = NixValueView::Group(
                seq![
                    (
                        n1,
                        NixValueView::Group(
                            seq![
                                (
                                    n2,
                                    NixValueView::Group(seq![(n3, NixValueView::Option(opt))]),
                                ),
                            ],
                        ),
                    ),
                ],
            );
            let config = GuardedValueView::Attrs(
                seq![
                    (
                        n1,
                        GuardedValueView::Attrs(
                            seq![
                                (
                                    n2,
                                    GuardedValueView::Attrs(
                                        seq![(n3, GuardedValueView::Bool(true))],
                                    ),
                                ),
                            ],
                        ),
                    ),
                ],
            );
            let merged = overlay_m(build_node_m(root, schema), Some(config));
            &&& merged.children.len() == 1
            &&& merged.children[0].name == n1
            &&& merged.children[0].children.len() == 1
            &&& merged.children[0].children[0].name == n2
            &&& merged.children[0].children[0].children.len() == 1
            &&& merged.children[0].children[0].children[0].name == n3
            &&& merged.children[0].children[0].children[0].value == Some(
                GuardedValueView::Bool(true),
            )
        }),
{
    let s3 = NixValueView::Group(seq![(n3, NixValueView::Option(opt))]);
    let s2 = NixValueView::Group(seq![(n2, s3)]);
    let schema = NixValueView::Group(seq![(n1, s2)]);
    let c3 = GuardedValueView::Attrs(seq![(n3, GuardedValueView::Bool(true))]);
    let c2 = GuardedValueView::Attrs(seq![(n2, c3)]);
    let config = GuardedValueView::Attrs(seq![(n1, c2)]);

    let leaf = build_node_m(n3, NixValueView::Option(opt));
    assert(leaf == crate::node::option_node_m(
        n3,
        OptionTypeView::Bool,
        crate::node::doc_of_option(opt),
    ));
    assert(leaf.name == n3);
    assert(leaf.option_type == Some(OptionTypeView::Bool));

    let b3 = build_node_m(n3, NixValueView::Option(opt));
    lemma_build_single_group(n2, n3, NixValueView::Option(opt));
    let b2 = build_node_m(n2, s3);
    assert(b2 == group_node_m(n2, seq![b3]));
    lemma_build_single_group(n1, n2, s3);
    let b1 = build_node_m(n1, s2);
    assert(b1 == group_node_m(n1, seq![b2]));
    lemma_build_single_group(root, n1, s2);
    let tree = build_node_m(root, schema);
    assert(tree == group_node_m(root, seq![b1]));

    lemma_overlay_single_group(root, b1, n1, c2);
    let merged = overlay_m(tree, Some(config));
    assert(merged == group_node_m(root, seq![overlay_m(b1, Some(c2))]));
    lemma_overlay_single_group(n1, b2, n2, c3);
    assert(overlay_m(b1, Some(c2)) == group_node_m(n1, seq![overlay_m(b2, Some(c3))]));
    lemma_overlay_single_group(n2, b3, n3, GuardedValueView::Bool(true));
    assert(overlay_m(b2, Some(c3)) == group_node_m(
        n2,
        seq![overlay_m(b3, Some(GuardedValueView::Bool(true)))],
    ));
    let merged_leaf = overlay_m(b3, Some(GuardedValueView::Bool(true)));
    assert(merged_leaf.name == n3);
    assert(merged_leaf.value == Some(GuardedValueView::Bool(true)));
}

} // verus!
