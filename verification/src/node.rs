//! The navigable option tree.
//!
//! `OptionNode` is the unit of the tree: a grouping node carries no type
//! descriptor and owns its children; an option leaf carries a decoded type
//! descriptor and documentation.  Children are kept sorted by a fixed policy:
//! grouping nodes before option leaves, `"enable"` first within each
//! category, an empty name last, lexicographic otherwise.

use vstd::prelude::*;

use crate::parse::GuardedValueView;
use crate::parse::NixOptionView;
use crate::parse::NixValueView;
use crate::parse::TypeValueView;
use crate::parse::NixOption;
use crate::parse::NixType;
use crate::parse::NixTypeValue;
use crate::parse::NixValue;
use vstd::string::StringExecFns;
use crate::parse::NixGuardedValue;
use crate::parse::opt_guarded_view;

verus! {

/// The static documentation of an option: its description, the displayed
/// name of its type, and its default and example values.
#[derive(Debug)]
pub struct OptionDocumentation {
    pub description: String,
    pub type_label: String,
    pub default: Option<NixGuardedValue>,
    pub example: Option<NixGuardedValue>,
}

/// A decoded type descriptor.
#[derive(Debug)]
pub enum OptionType {
    AttrsOf(Box<OptionType>),
    ListOf(Box<OptionType>),
    NullOr(Box<OptionType>),
    Either(Box<OptionType>, Box<OptionType>),
    Enum(Vec<String>),
    Path,
    Package,
    String,
    Float,
    Bool,
    /// An integer with optional lower and upper bounds.
    Int(Option<i64>, Option<i64>),
    /// The fallback for unrecognised descriptors, carrying their description.
    Unknown(String),
    /// An inline nested schema, carrying its already built option nodes.
    Submodule(Vec<OptionNode>),
}

/// A node of the navigable tree.  A node is an option leaf exactly when
/// `option_type` is present; otherwise it is a pure grouping node.
#[derive(Debug)]
pub struct OptionNode {
    pub name: String,
    pub documentation: Option<OptionDocumentation>,
    pub option_type: Option<OptionType>,
    /// Populated only by the config overlay.
    pub value: Option<NixGuardedValue>,
    pub children: Vec<OptionNode>,
    /// Display state owned by the caller; no tree operation reads it.
    pub expanded: bool,
}

/// The mathematical form of an `OptionDocumentation`.
pub struct DocView {
    pub description: Seq<char>,
    pub type_label: Seq<char>,
    pub default: Option<GuardedValueView>,
    pub example: Option<GuardedValueView>,
}

/// The mathematical form of an `OptionType`.
pub enum OptionTypeView {
    AttrsOf(Box<OptionTypeView>),
    ListOf(Box<OptionTypeView>),
    NullOr(Box<OptionTypeView>),
    Either(Box<OptionTypeView>, Box<OptionTypeView>),
    Enum(Seq<Seq<char>>),
    Path,
    Package,
    String,
    Float,
    Bool,
    Int(Option<i64>, Option<i64>),
    Unknown(Seq<char>),
    Submodule(Seq<NodeView>),
}

/// The mathematical form of an `OptionNode`.
pub struct NodeView {
    pub name: Seq<char>,
    pub documentation: Option<DocView>,
    pub option_type: Option<OptionTypeView>,
    pub value: Option<GuardedValueView>,
    pub children: Seq<NodeView>,
    pub expanded: bool,
}

pub open spec fn doc_view(d: OptionDocumentation) -> DocView {
    DocView {
        description: d.description@,
        type_label: d.type_label@,
        default: opt_guarded_view(d.default),
        example: opt_guarded_view(d.example),
    }
}

pub open spec fn opt_doc_view(d: Option<OptionDocumentation>) -> Option<DocView> {
    match d {
        Some(doc) => Some(doc_view(doc)),
        None => None,
    }
}

pub open spec fn type_view(t: OptionType) -> OptionTypeView
    decreases t,
{
    match t {
        OptionType::AttrsOf(e) => OptionTypeView::AttrsOf(Box::new(type_view(*e))),
        OptionType::ListOf(e) => OptionTypeView::ListOf(Box::new(type_view(*e))),
        OptionType::NullOr(e) => OptionTypeView::NullOr(Box::new(type_view(*e))),
        OptionType::Either(l, r) => OptionTypeView::Either(
            Box::new(type_view(*l)),
            Box::new(type_view(*r)),
        ),
        OptionType::Enum(vs) => OptionTypeView::Enum(crate::run::strings_view(vs@)),
        OptionType::Path => OptionTypeView::Path,
        OptionType::Package => OptionTypeView::Package,
        OptionType::String => OptionTypeView::String,
        OptionType::Float => OptionTypeView::Float,
        OptionType::Bool => OptionTypeView::Bool,
        OptionType::Int(lo, hi) => OptionTypeView::Int(lo, hi),
        OptionType::Unknown(d) => OptionTypeView::Unknown(d@),
        OptionType::Submodule(nodes) => OptionTypeView::Submodule(nodes_view(nodes@)),
    }
}

pub open spec fn opt_type_view(t: Option<OptionType>) -> Option<OptionTypeView>
    decreases t,
{
    match t {
        Some(ty) => Some(type_view(ty)),
        None => None,
    }
}

pub open spec fn node_view(n: OptionNode) -> NodeView
    decreases n,
{
    NodeView {
        name: n.name@,
        documentation: opt_doc_view(n.documentation),
        option_type: opt_type_view(n.option_type),
        value: opt_guarded_view(n.value),
        children: nodes_view(n.children@),
        expanded: n.expanded,
    }
}

pub open spec fn nodes_view(s: Seq<OptionNode>) -> Seq<NodeView>
    decreases s,
{
    if s.len() == 0 {
        Seq::empty()
    } else {
        seq![node_view(s[0])] + nodes_view(s.drop_first())
    }
}

impl View for OptionType {
    type V = OptionTypeView;

    open spec fn view(&self) -> OptionTypeView {
        type_view(*self)
    }
}

impl View for OptionNode {
    type V = NodeView;

    open spec fn view(&self) -> NodeView {
        node_view(*self)
    }
}

impl OptionDocumentation {
    /// A copy holding the same documentation.
    pub fn deep_clone(&self) -> (r: Self)
        ensures
            doc_view(r) == doc_view(*self),
    {
        OptionDocumentation {
            description: self.description.clone(),
            type_label: self.type_label.clone(),
            default: crate::parse::clone_opt_guarded(&self.default),
            example: crate::parse::clone_opt_guarded(&self.example),
        }
    }
}

fn clone_opt_doc(d: &Option<OptionDocumentation>) -> (r: Option<OptionDocumentation>)
    ensures
        opt_doc_view(r) == opt_doc_view(*d),
{
    match d {
        Some(doc) => Some(doc.deep_clone()),
        None => None,
    }
}

fn clone_strings(v: &Vec<String>) -> (r: Vec<String>)
    ensures
        crate::run::strings_view(r@) == crate::run::strings_view(v@),
{
    let mut out: Vec<String> = Vec::new();
    let mut i: usize = 0;
    while i < v.len()
        invariant
            i <= v@.len(),
            out@.len() == i,
            forall|j: int| 0 <= j < i ==> (#[trigger] out@[j])@ == v@[j]@,
        decreases v@.len() - i,
    {
        out.push(v[i].clone());
        i = i + 1;
    }
    proof {
        assert(crate::run::strings_view(out@) =~= crate::run::strings_view(v@));
    }
    out
}

impl OptionType {
    /// A copy holding the same type descriptor.
    pub fn deep_clone(&self) -> (r: Self)
        ensures
            r@ == self@,
        decreases self@,
    {
        match self {
            OptionType::AttrsOf(e) => {
                proof {
                    assert(decreases_to!(self@ => self@->AttrsOf_0));
                }
                OptionType::AttrsOf(Box::new(e.deep_clone()))
            },
            OptionType::ListOf(e) => {
                proof {
                    assert(decreases_to!(self@ => self@->ListOf_0));
                }
                OptionType::ListOf(Box::new(e.deep_clone()))
            },
            OptionType::NullOr(e) => {
                proof {
                    assert(decreases_to!(self@ => self@->NullOr_0));
                }
                OptionType::NullOr(Box::new(e.deep_clone()))
            },
            OptionType::Either(l, r) => {
                proof {
                    assert(decreases_to!(self@ => self@->Either_0));
                    assert(decreases_to!(self@ => self@->Either_1));
                }
                OptionType::Either(Box::new(l.deep_clone()), Box::new(r.deep_clone()))
            },
            OptionType::Enum(vs) => OptionType::Enum(clone_strings(vs)),
            OptionType::Path => OptionType::Path,
            OptionType::Package => OptionType::Package,
            OptionType::String => OptionType::String,
            OptionType::Float => OptionType::Float,
            OptionType::Bool => OptionType::Bool,
            OptionType::Int(lo, hi) => OptionType::Int(*lo, *hi),
            OptionType::Unknown(d) => OptionType::Unknown(d.clone()),
            OptionType::Submodule(nodes) => {
                proof {
                    assert(decreases_to!(self@ => self@->Submodule_0));
                }
                OptionType::Submodule(clone_nodes(nodes))
            },
        }
    }
}

impl OptionNode {
    /// A copy holding the same tree.
    pub fn deep_clone(&self) -> (r: Self)
        ensures
            r@ == self@,
        decreases self@,
    {
        let option_type = match &self.option_type {
            Some(t) => {
                proof {
                    assert(decreases_to!(self@ => self@.option_type));
                    assert(decreases_to!(self@.option_type => self@.option_type->Some_0));
                }
                Some(t.deep_clone())
            },
            None => None,
        };
        proof {
            assert(decreases_to!(self@ => self@.children));
        }
        OptionNode {
            name: self.name.clone(),
            documentation: clone_opt_doc(&self.documentation),
            option_type,
            value: crate::parse::clone_opt_guarded(&self.value),
            children: clone_nodes(&self.children),
            expanded: self.expanded,
        }
    }
}

/// A copy of a sibling sequence, holding the same trees.
pub fn clone_nodes(v: &Vec<OptionNode>) -> (r: Vec<OptionNode>)
    ensures
        nodes_view(r@) == nodes_view(v@),
    decreases nodes_view(v@),
{
    let mut out: Vec<OptionNode> = Vec::new();
    let mut i: usize = 0;
    while i < v.len()
        invariant
            i <= v@.len(),
            out@.len() == i,
            forall|j: int| 0 <= j < i ==> node_view(#[trigger] out@[j]) == node_view(v@[j]),
        decreases v@.len() - i,
    {
        proof {
            lemma_nodes_view(v@);
            assert(decreases_to!(nodes_view(v@) => nodes_view(v@)[i as int]));
        }
        let c = v[i].deep_clone();
        out.push(c);
        i = i + 1;
    }
    proof {
        lemma_nodes_view(v@);
        lemma_nodes_view(out@);
        assert forall|j: int| 0 <= j < v@.len() implies nodes_view(out@)[j] == nodes_view(
            v@,
        )[j] by {
            assert(node_view(out@[j]) == node_view(v@[j]));
        }
        assert(nodes_view(out@) =~= nodes_view(v@));
    }
    out
}

pub proof fn lemma_nodes_view(s: Seq<OptionNode>)
    ensures
        nodes_view(s).len() == s.len(),
        forall|i: int| 0 <= i < s.len() ==> nodes_view(s)[i] == node_view(#[trigger] s[i]),
    decreases s,
{
    if s.len() > 0 {
        lemma_nodes_view(s.drop_first());
        assert forall|i: int| 0 <= i < s.len() implies nodes_view(s)[i] == node_view(
            #[trigger] s[i],
        ) by {
            if i > 0 {
                assert(s.drop_first()[i - 1] == s[i]);
            }
        }
    }
}

/// The displayed name of a raw type value: a named type shows its
/// description, a submodule and the recursion sentinel show fixed text.
pub open spec fn type_value_text(t: TypeValueView) -> Seq<char> {
    match t {
        TypeValueView::Type(ty) => ty.description,
        TypeValueView::Submodule(_) => "submodule"@,
        TypeValueView::InfiniteRecursion => "infinite recursion error"@,
    }
}

/// The documentation drawn from an option leaf of the schema.
pub open spec fn doc_of_option(opt: NixOptionView) -> DocView {
    DocView {
        description: opt.description,
        type_label: type_value_text(opt.type_value),
        default: opt.default,
        example: opt.example,
    }
}

/// The decoded leaf type for a given type name; unmatched names degrade to
/// `Unknown` carrying the descriptor's description.
pub open spec fn leaf_type_of(name: Seq<char>, description: Seq<char>) -> OptionTypeView {
    if name == "str"@ || name == "string"@ || name == "separatedString"@ {
        OptionTypeView::String
    } else if name == "int"@ {
        OptionTypeView::Int(None, None)
    } else if name == "positiveInt"@ {
        OptionTypeView::Int(Some(1), None)
    } else if name == "unsignedInt"@ {
        OptionTypeView::Int(Some(0), None)
    } else if name == "unsignedInt8"@ {
        OptionTypeView::Int(Some(0), Some(255))
    } else if name == "unsignedInt16"@ {
        OptionTypeView::Int(Some(0), Some(65535))
    } else if name == "unsignedInt32"@ {
        OptionTypeView::Int(Some(0), Some(4294967295))
    } else if name == "signedInt8"@ {
        OptionTypeView::Int(Some(-128i64), Some(127))
    } else if name == "signedInt16"@ {
        OptionTypeView::Int(Some(-32768i64), Some(32767))
    } else if name == "signedInt32"@ {
        OptionTypeView::Int(Some(-2147483648i64), Some(2147483647))
    } else if name == "float"@ {
        OptionTypeView::Float
    } else if name == "bool"@ {
        OptionTypeView::Bool
    } else if name == "path"@ {
        OptionTypeView::Path
    } else if name == "package"@ {
        OptionTypeView::Package
    } else {
        OptionTypeView::Unknown(description)
    }
}

/// A pure grouping node.
pub open spec fn group_node_m(name: Seq<char>, children: Seq<NodeView>) -> NodeView {
    NodeView {
        name,
        documentation: None,
        option_type: None,
        value: None,
        children,
        expanded: false,
    }
}

/// The children an option leaf starts with: a submodule (wrapped in
/// `nullOr` or inline) shows its own options; an `attrsOf`/`listOf`
/// submodule shows one documentation-only child, its name suffixed
/// `.<name>` or `.*`, so the shape of dynamically keyed entries is visible
/// before any config exists.
pub open spec fn children_of_type(name: Seq<char>, ot: OptionTypeView) -> Seq<NodeView> {
    match ot {
        OptionTypeView::NullOr(e) => match *e {
            OptionTypeView::Submodule(s) => s,
            _ => Seq::empty(),
        },
        OptionTypeView::Submodule(s) => s,
        OptionTypeView::AttrsOf(e) => match *e {
            OptionTypeView::Submodule(s) => seq![group_node_m(name + ".<name>"@, s)],
            _ => Seq::empty(),
        },
        OptionTypeView::ListOf(e) => match *e {
            OptionTypeView::Submodule(s) => seq![group_node_m(name + ".*"@, s)],
            _ => Seq::empty(),
        },
        _ => Seq::empty(),
    }
}

/// An option leaf node, before any config is overlaid.
pub open spec fn option_node_m(name: Seq<char>, ot: OptionTypeView, doc: DocView) -> NodeView {
    NodeView {
        name,
        documentation: Some(doc),
        option_type: Some(ot),
        value: None,
        children: children_of_type(name, ot),
        expanded: false,
    }
}

/// The semantic type of a raw type value.  Wrapper shapes (an `elemType`
/// entry) and `either` shapes (a `left` and a `right` entry) recurse;
/// leaf names go through the fixed table; a submodule builds and sorts its
/// own option nodes; unrecognised names and the recursion sentinel degrade
/// to `Unknown`.
pub open spec fn type_of_raw(t: TypeValueView) -> OptionTypeView
    decreases t, 1int,
    via type_of_raw_dec
{
    match t {
        TypeValueView::Type(ty) => match crate::parse::find_entry(ty.nested_types, "elemType"@) {
            Some(elem) => {
                if ty.name == "nullOr"@ {
                    OptionTypeView::NullOr(Box::new(type_of_raw(elem)))
                } else if ty.name == "listOf"@ {
                    OptionTypeView::ListOf(Box::new(type_of_raw(elem)))
                } else if ty.name == "attrsOf"@ || ty.name == "lazyAttrsOf"@ {
                    OptionTypeView::AttrsOf(Box::new(type_of_raw(elem)))
                } else {
                    OptionTypeView::Unknown(ty.description)
                }
            },
            None => match (
                crate::parse::find_entry(ty.nested_types, "left"@),
                crate::parse::find_entry(ty.nested_types, "right"@),
            ) {
                (Some(l), Some(r)) => {
                    if ty.name == "either"@ {
                        OptionTypeView::Either(Box::new(type_of_raw(l)), Box::new(type_of_raw(r)))
                    } else {
                        OptionTypeView::Unknown(ty.description)
                    }
                },
                _ => leaf_type_of(ty.name, ty.description),
            },
        },
        TypeValueView::Submodule(opts) => OptionTypeView::Submodule(
            crate::sort::sort_nodes_m(build_set_m(opts)),
        ),
        TypeValueView::InfiniteRecursion => OptionTypeView::Unknown("infinite recursion error"@),
    }
}

#[via_fn]
proof fn type_of_raw_dec(t: TypeValueView) {
    if let TypeValueView::Type(ty) = t {
        lemma_nested_entry_decreases(t, "elemType"@);
        lemma_nested_entry_decreases(t, "left"@);
        lemma_nested_entry_decreases(t, "right"@);
    }
}

/// A named nested type of `t` stands below `t` in the termination order.
proof fn lemma_nested_entry_decreases(t: TypeValueView, k: Seq<char>)
    requires
        t matches TypeValueView::Type(ty),
    ensures
        crate::parse::find_entry(t->Type_0.nested_types, k) matches Some(e) ==> decreases_to!(
            t => e,
        ),
{
    let ne = t->Type_0.nested_types;
    crate::parse::lemma_find_index(ne, k);
    if crate::parse::find_index(ne, k) is Some {
        let i = crate::parse::find_index(ne, k)->Some_0;
        assert(decreases_to!(t => ne));
        assert(decreases_to!(ne => ne[i]));
        assert(decreases_to!(ne[i] => ne[i].1));
    }
}

/// The nodes built from a schema set, entry by entry, in order.
pub open spec fn build_set_m(entries: Seq<(Seq<char>, NixValueView)>) -> Seq<NodeView>
    decreases entries, 2int,
{
    if entries.len() == 0 {
        Seq::empty()
    } else {
        seq![build_node_m(entries[0].0, entries[0].1)] + build_set_m(entries.drop_first())
    }
}

/// The node built from one schema node: an option leaf decodes its type and
/// documentation; a set builds its children and sorts them.
pub open spec fn build_node_m(name: Seq<char>, v: NixValueView) -> NodeView
    decreases v, 1int,
{
    match v {
        NixValueView::Option(opt) => option_node_m(
            name,
            type_of_raw(opt.type_value),
            doc_of_option(opt),
        ),
        NixValueView::Group(entries) => group_node_m(
            name,
            crate::sort::sort_nodes_m(build_set_m(entries)),
        ),
    }
}

/// The displayed name of a raw type value.
pub fn type_value_label(t: &NixTypeValue) -> (r: String)
    ensures
        r@ == type_value_text(t@),
{
    match t {
        NixTypeValue::Type(ty) => ty.description.clone(),
        NixTypeValue::Submodule(_) => "submodule".to_owned(),
        NixTypeValue::InfiniteRecursion(_) => "infinite recursion error".to_owned(),
    }
}

impl NixTypeValue {
    /// The rendered name of this raw type value.
    pub fn display_text(&self) -> (r: String)
        ensures
            r@ == type_value_text(self@),
    {
        type_value_label(self)
    }
}

impl OptionType {
    /// Decodes a raw type value into its semantic type.
    pub fn from_raw(raw: NixTypeValue) -> (r: OptionType)
        ensures
            r@ == type_of_raw(raw@),
        decreases raw@, 1int,
    {
        let ghost r0 = raw@;
        match raw {
            NixTypeValue::Type(t) => {
                let NixType { description, name, nested_types } = t;
                let ghost ne = crate::parse::type_entries_view(nested_types@);
                proof {
                    crate::parse::lemma_type_entries_view(nested_types@);
                }
                match crate::text::find_key_pairs(&nested_types, "elemType") {
                    Some(i) => {
                        proof {
                            assert forall|j: int| 0 <= j < i implies (#[trigger] ne[j]).0
                                != "elemType"@ by {
                                assert(nested_types@[j].0@ != "elemType"@);
                            }
                            crate::parse::lemma_find_index_witness(ne, "elemType"@, i as int);
                            assert(decreases_to!(r0 => r0->Type_0));
                            assert(decreases_to!(r0->Type_0 => ne));
                            assert(decreases_to!(ne => ne[i as int]));
                            assert(decreases_to!(ne[i as int] => ne[i as int].1));
                        }
                        let mut nt = nested_types;
                        let pair = nt.remove(i);
                        let elem = OptionType::from_raw(pair.1);
                        if crate::text::string_eq_str(&name, "nullOr") {
                            OptionType::NullOr(Box::new(elem))
                        } else if crate::text::string_eq_str(&name, "listOf") {
                            OptionType::ListOf(Box::new(elem))
                        } else if crate::text::string_eq_str(&name, "attrsOf")
                            || crate::text::string_eq_str(&name, "lazyAttrsOf") {
                            OptionType::AttrsOf(Box::new(elem))
                        } else {
                            OptionType::Unknown(description)
                        }
                    },
                    None => {
                        proof {
                            assert forall|j: int| 0 <= j < ne.len() implies (#[trigger] ne[j]).0
                                != "elemType"@ by {
                                assert(nested_types@[j].0@ != "elemType"@);
                            }
                            crate::parse::lemma_find_index(ne, "elemType"@);
                        }
                        let found_left = crate::text::find_key_pairs(&nested_types, "left");
                        let found_right = crate::text::find_key_pairs(&nested_types, "right");
                        match (found_left, found_right) {
                            (Some(il), Some(ir)) => {
                                proof {
                                    assert forall|j: int| 0 <= j < il implies (#[trigger] ne[j]).0
                                        != "left"@ by {
                                        assert(nested_types@[j].0@ != "left"@);
                                    }
                                    assert forall|j: int| 0 <= j < ir implies (#[trigger] ne[j]).0
                                        != "right"@ by {
                                        assert(nested_types@[j].0@ != "right"@);
                                    }
                                    crate::parse::lemma_find_index_witness(ne, "left"@, il as int);
                                    crate::parse::lemma_find_index_witness(
                                        ne,
                                        "right"@,
                                        ir as int,
                                    );
                                    reveal_strlit("left");
                                    reveal_strlit("right");
                                    assert("left"@.len() == 4);
                                    assert("right"@.len() == 5);
                                    assert(il != ir);
                                    assert(decreases_to!(r0 => r0->Type_0));
                                    assert(decreases_to!(r0->Type_0 => ne));
                                    assert(decreases_to!(ne => ne[il as int]));
                                    assert(decreases_to!(ne[il as int] => ne[il as int].1));
                                    assert(decreases_to!(ne => ne[ir as int]));
                                    assert(decreases_to!(ne[ir as int] => ne[ir as int].1));
                                }
                                let mut nt = nested_types;
                                let left_raw;
                                let right_raw;
                                if il < ir {
                                    right_raw = nt.remove(ir).1;
                                    left_raw = nt.remove(il).1;
                                } else {
                                    left_raw = nt.remove(il).1;
                                    right_raw = nt.remove(ir).1;
                                }
                                let l = OptionType::from_raw(left_raw);
                                let r = OptionType::from_raw(right_raw);
                                if crate::text::string_eq_str(&name, "either") {
                                    OptionType::Either(Box::new(l), Box::new(r))
                                } else {
                                    OptionType::Unknown(description)
                                }
                            },
                            _ => {
                                proof {
                                    if found_left is None {
                                        assert forall|j: int|
                                            0 <= j < ne.len() implies (#[trigger] ne[j]).0
                                            != "left"@ by {
                                            assert(nested_types@[j].0@ != "left"@);
                                        }
                                    }
                                    if found_right is None {
                                        assert forall|j: int|
                                            0 <= j < ne.len() implies (#[trigger] ne[j]).0
                                            != "right"@ by {
                                            assert(nested_types@[j].0@ != "right"@);
                                        }
                                    }
                                    crate::parse::lemma_find_index(ne, "left"@);
                                    crate::parse::lemma_find_index(ne, "right"@);
                                }
                                Self::leaf_from_name(name, description)
                            },
                        }
                    },
                }
            },
            NixTypeValue::Submodule(sub) => {
                proof {
                    assert(decreases_to!(r0 => r0->Submodule_0));
                }
                let built = build_set(sub.options);
                let sorted = crate::sort::sort_siblings(built);
                OptionType::Submodule(sorted)
            },
            NixTypeValue::InfiniteRecursion(_) => OptionType::Unknown(
                "infinite recursion error".to_owned(),
            ),
        }
    }

    /// The leaf type for a given type name, by the fixed table.
    fn leaf_from_name(name: String, description: String) -> (r: OptionType)
        ensures
            r@ == leaf_type_of(name@, description@),
    {
        if crate::text::string_eq_str(&name, "str") || crate::text::string_eq_str(&name, "string")
            || crate::text::string_eq_str(&name, "separatedString") {
            OptionType::String
        } else if crate::text::string_eq_str(&name, "int") {
            OptionType::Int(None, None)
        } else if crate::text::string_eq_str(&name, "positiveInt") {
            OptionType::Int(Some(1), None)
        } else if crate::text::string_eq_str(&name, "unsignedInt") {
            OptionType::Int(Some(0), None)
        } else if crate::text::string_eq_str(&name, "unsignedInt8") {
            OptionType::Int(Some(0), Some(255))
        } else if crate::text::string_eq_str(&name, "unsignedInt16") {
            OptionType::Int(Some(0), Some(65535))
        } else if crate::text::string_eq_str(&name, "unsignedInt32") {
            OptionType::Int(Some(0), Some(4294967295))
        } else if crate::text::string_eq_str(&name, "signedInt8") {
            OptionType::Int(Some(-128), Some(127))
        } else if crate::text::string_eq_str(&name, "signedInt16") {
            OptionType::Int(Some(-32768), Some(32767))
        } else if crate::text::string_eq_str(&name, "signedInt32") {
            OptionType::Int(Some(-2147483648), Some(2147483647))
        } else if crate::text::string_eq_str(&name, "float") {
            OptionType::Float
        } else if crate::text::string_eq_str(&name, "bool") {
            OptionType::Bool
        } else if crate::text::string_eq_str(&name, "path") {
            OptionType::Path
        } else if crate::text::string_eq_str(&name, "package") {
            OptionType::Package
        } else {
            OptionType::Unknown(description)
        }
    }
}

/// The children an option leaf starts with, derived from its type.
fn children_of(name: &String, ot: &OptionType) -> (r: Vec<OptionNode>)
    ensures
        nodes_view(r@) == children_of_type(name@, ot@),
{
    match ot {
        OptionType::NullOr(e) => match &**e {
            OptionType::Submodule(s) => {
                proof {
                    assert(type_view(**e) == OptionTypeView::Submodule(nodes_view(s@)));
                    assert(ot@ == OptionTypeView::NullOr(Box::new(type_view(**e))));
                }
                clone_nodes(s)
            },
            _ => Vec::new(),
        },
        OptionType::Submodule(s) => {
            proof {
                assert(ot@ == OptionTypeView::Submodule(nodes_view(s@)));
            }
            clone_nodes(s)
        },
        OptionType::AttrsOf(e) => match &**e {
            OptionType::Submodule(s) => {
                let child = OptionNode {
                    name: name.clone().concat(".<name>"),
                    documentation: None,
                    option_type: None,
                    value: None,
                    children: clone_nodes(s),
                    expanded: false,
                };
                let ghost cv = child;
                let mut out: Vec<OptionNode> = Vec::new();
                out.push(child);
                proof {
                    assert(out@ =~= seq![cv]);
                    assert(seq![cv].drop_first() =~= Seq::<OptionNode>::empty());
                    assert(node_view(cv) == group_node_m(name@ + ".<name>"@, nodes_view(s@)));
                    assert(type_view(**e) == OptionTypeView::Submodule(nodes_view(s@)));
                    assert(ot@ == OptionTypeView::AttrsOf(Box::new(type_view(**e))));
                    lemma_nodes_view(out@);
                    assert(nodes_view(out@) =~= children_of_type(name@, ot@));
                }
                out
            },
            _ => Vec::new(),
        },
        OptionType::ListOf(e) => match &**e {
            OptionType::Submodule(s) => {
                let child = OptionNode {
                    name: name.clone().concat(".*"),
                    documentation: None,
                    option_type: None,
                    value: None,
                    children: clone_nodes(s),
                    expanded: false,
                };
                let ghost cv = child;
                let mut out: Vec<OptionNode> = Vec::new();
                out.push(child);
                proof {
                    assert(out@ =~= seq![cv]);
                    assert(seq![cv].drop_first() =~= Seq::<OptionNode>::empty());
                    assert(node_view(cv) == group_node_m(name@ + ".*"@, nodes_view(s@)));
                    assert(type_view(**e) == OptionTypeView::Submodule(nodes_view(s@)));
                    assert(ot@ == OptionTypeView::ListOf(Box::new(type_view(**e))));
                    lemma_nodes_view(out@);
                    assert(nodes_view(out@) =~= children_of_type(name@, ot@));
                }
                out
            },
            _ => Vec::new(),
        },
        _ => Vec::new(),
    }
}

impl OptionNode {
    /// An option leaf node, before any config is overlaid.
    fn new_option(name: String, option_type: OptionType, doc: OptionDocumentation) -> (r: Self)
        ensures
            r@ == option_node_m(name@, option_type@, doc_view(doc)),
    {
        let children = children_of(&name, &option_type);
        OptionNode {
            name,
            documentation: Some(doc),
            option_type: Some(option_type),
            value: None,
            children,
            expanded: false,
        }
    }

    /// A grouping node; its children are sorted by the sibling policy.
    fn new_set(name: String, children: Vec<OptionNode>) -> (r: Self)
        ensures
            r@ == group_node_m(name@, crate::sort::sort_nodes_m(nodes_view(children@))),
    {
        let sorted = crate::sort::sort_siblings(children);
        OptionNode {
            name,
            documentation: None,
            option_type: None,
            value: None,
            children: sorted,
            expanded: false,
        }
    }

    /// Builds the tree node for one schema node.
    pub fn new(name: String, val: NixValue) -> (r: Self)
        ensures
            r@ == build_node_m(name@, val@),
        decreases val@, 1int,
    {
        let ghost v0 = val@;
        match val {
            NixValue::Option(opt) => {
                let NixOption { description, type_value, default, example } = opt;
                let label = type_value_label(&type_value);
                proof {
                    assert(decreases_to!(v0 => v0->Option_0));
                    assert(decreases_to!(v0->Option_0 => v0->Option_0.type_value));
                }
                let ot = OptionType::from_raw(type_value);
                let doc = OptionDocumentation {
                    description,
                    type_label: label,
                    default,
                    example,
                };
                Self::new_option(name, ot, doc)
            },
            NixValue::Group(entries) => {
                proof {
                    assert(decreases_to!(v0 => v0->Group_0));
                }
                let children = build_set(entries);
                Self::new_set(name, children)
            },
        }
    }
}

/// Builds the nodes of a schema set, entry by entry.
fn build_set(entries: Vec<(String, NixValue)>) -> (r: Vec<OptionNode>)
    ensures
        nodes_view(r@) == build_set_m(crate::parse::set_view(entries@)),
    decreases crate::parse::set_view(entries@), 2int,
{
    let ghost orig = entries@;
    let ghost sv = crate::parse::set_view(orig);
    proof {
        crate::parse::lemma_set_view(orig);
    }
    let mut entries = entries;
    if entries.len() == 0 {
        Vec::new()
    } else {
        let pair = entries.remove(0);
        proof {
            assert(decreases_to!(sv => sv[0]));
            assert(decreases_to!(sv[0] => sv[0].1));
        }
        let node = OptionNode::new(pair.0, pair.1);
        proof {
            crate::parse::lemma_set_view(entries@);
            assert(entries@ =~= orig.drop_first());
            assert(crate::parse::set_view(entries@) =~= sv.drop_first()) by {
                crate::parse::lemma_set_view(orig.drop_first());
                assert forall|m: int|
                    0 <= m < orig.drop_first().len() implies crate::parse::set_view(
                    orig.drop_first(),
                )[m] == sv.drop_first()[m] by {
                    assert(orig.drop_first()[m] == orig[m + 1]);
                }
            }
        }
        let mut rest = build_set(entries);
        let ghost rest0 = rest@;
        rest.insert(0, node);
        proof {
            lemma_build_set_m(sv);
            lemma_build_set_m(sv.drop_first());
            lemma_nodes_view(rest@);
            lemma_nodes_view(rest0);
            assert(rest@ =~= seq![node] + rest0);
            assert forall|m: int| 0 <= m < rest@.len() implies nodes_view(rest@)[m]
                == build_set_m(sv)[m] by {
                if m == 0 {
                    assert(nodes_view(rest@)[0] == node_view(node));
                } else {
                    assert(rest@[m] == rest0[m - 1]);
                    assert(nodes_view(rest0)[m - 1] == build_set_m(sv.drop_first())[m - 1]);
                    assert(sv.drop_first()[m - 1] == sv[m]);
                }
            }
            assert(nodes_view(rest@) =~= build_set_m(sv));
        }
        rest
    }
}

/// The synthetic name suffix a templated submodule slot shows: `<name>` for
/// an `attrsOf` submodule, `*` for a `listOf` submodule.
pub open spec fn name_extension_m(t: OptionTypeView) -> Option<Seq<char>> {
    match t {
        OptionTypeView::AttrsOf(e) => match *e {
            OptionTypeView::Submodule(_) => Some("<name>"@),
            _ => None,
        },
        OptionTypeView::ListOf(e) => match *e {
            OptionTypeView::Submodule(_) => Some("*"@),
            _ => None,
        },
        _ => None,
    }
}

/// The type carries a submodule, inline or behind `attrsOf`/`listOf`.
pub open spec fn has_nested_submodule_m(t: OptionTypeView) -> bool {
    t is Submodule || name_extension_m(t) is Some
}

impl OptionType {
    /// True exactly when the type carries a submodule, inline or behind
    /// `attrsOf`/`listOf`.
    pub fn has_nested_submodule(&self) -> (r: bool)
        ensures
            r == has_nested_submodule_m(self@),
    {
        if matches!(self, OptionType::Submodule(_)) {
            true
        } else {
            self.get_name_extension().is_some()
        }
    }

    /// The synthetic name suffix a templated submodule slot shows.
    pub fn get_name_extension(&self) -> (r: Option<&str>)
        ensures
            match r {
                Some(ext) => name_extension_m(self@) == Some(ext@),
                None => name_extension_m(self@) is None,
            },
    {
        match self {
            OptionType::AttrsOf(e) => match &**e {
                OptionType::Submodule(_) => {
                    proof {
                        assert(type_view(**e) is Submodule);
                    }
                    Some("<name>")
                },
                _ => {
                    proof {
                        assert(!(type_view(**e) is Submodule));
                    }
                    None
                },
            },
            OptionType::ListOf(e) => match &**e {
                OptionType::Submodule(_) => {
                    proof {
                        assert(type_view(**e) is Submodule);
                    }
                    Some("*")
                },
                _ => {
                    proof {
                        assert(!(type_view(**e) is Submodule));
                    }
                    None
                },
            },
            _ => None,
        }
    }
}

/// The category label shown beside a node: a marker for collapsed and
/// expanded submodule carriers and groupings, a check mark for an `enable`
/// option, a plain marker for any other option.
pub open spec fn icon_m(n: NodeView) -> Seq<char> {
    match n.option_type {
        Some(t) => if has_nested_submodule_m(t) {
            if n.expanded {
                "[-]"@
            } else {
                "[+]"@
            }
        } else {
            if n.name == "enable"@ {
                "[x]"@
            } else {
                "[ ]"@
            }
        },
        None => if n.expanded {
            "[-]"@
        } else {
            "[+]"@
        },
    }
}

impl OptionNode {
    /// The category label shown beside this node.
    pub fn get_icon(&self) -> (r: String)
        ensures
            r@ == icon_m(self@),
    {
        let open_marker = if self.expanded {
            "[-]"
        } else {
            "[+]"
        };
        match &self.option_type {
            Some(t) => {
                if t.has_nested_submodule() {
                    open_marker.to_owned()
                } else if crate::text::string_eq_str(&self.name, "enable") {
                    "[x]".to_owned()
                } else {
                    "[ ]".to_owned()
                }
            },
            None => open_marker.to_owned(),
        }
    }

    /// A node is a leaf exactly when it is a pure grouping node with no
    /// children; anything else can be expanded.
    pub fn is_leaf(&self) -> (r: bool)
        ensures
            r == (self@.option_type is None && self@.children.len() == 0),
    {
        proof {
            lemma_nodes_view(self.children@);
        }
        self.option_type.is_none() && self.children.len() == 0
    }

    /// The opposite of `is_leaf`.
    pub fn is_branch(&self) -> (r: bool)
        ensures
            r == !(self@.option_type is None && self@.children.len() == 0),
    {
        !self.is_leaf()
    }

    /// How many children the node shows.
    pub fn children_count(&self) -> (r: usize)
        ensures
            r == self@.children.len(),
    {
        proof {
            lemma_nodes_view(self.children@);
        }
        self.children.len()
    }

    /// The `index`-th child.
    pub fn get_child(&self, index: usize) -> (r: &OptionNode)
        requires
            index < self@.children.len(),
        ensures
            r@ == self@.children[index as int],
    {
        proof {
            lemma_nodes_view(self.children@);
        }
        &self.children[index]
    }

    /// The display state owned by the caller.
    pub fn is_expanded(&self) -> (r: bool)
        ensures
            r == self@.expanded,
    {
        self.expanded
    }

    /// Flips the display state; nothing else changes.
    pub fn toggle_expanded(&mut self)
        ensures
            final(self)@ == (NodeView { expanded: !old(self)@.expanded, ..old(self)@ }),
    {
        self.expanded = !self.expanded;
    }
}

/// Documentation comparison for change detection: only the displayed parts
/// (description and type label) count.
pub open spec fn doc_same_m(a: DocView, b: DocView) -> bool {
    a.description == b.description && a.type_label == b.type_label
}

/// Structural, recursive comparison of nodes for change detection: the
/// overlaid value is display state and does not count.
pub open spec fn node_same_m(a: NodeView, b: NodeView) -> bool
    decreases a,
{
    &&& a.name == b.name
    &&& (match (a.documentation, b.documentation) {
        (Some(x), Some(y)) => doc_same_m(x, y),
        (None, None) => true,
        _ => false,
    })
    &&& (match (a.option_type, b.option_type) {
        (Some(x), Some(y)) => type_same_m(x, y),
        (None, None) => true,
        _ => false,
    })
    &&& nodes_same_m(a.children, b.children)
    &&& a.expanded == b.expanded
}

pub open spec fn nodes_same_m(a: Seq<NodeView>, b: Seq<NodeView>) -> bool
    decreases a,
{
    &&& a.len() == b.len()
    &&& (a.len() == 0 || (node_same_m(a[0], b[0]) && nodes_same_m(a.drop_first(), b.drop_first())))
}

/// Structural, recursive comparison of type descriptors.
pub open spec fn type_same_m(a: OptionTypeView, b: OptionTypeView) -> bool
    decreases a,
{
    match (a, b) {
        (OptionTypeView::AttrsOf(x), OptionTypeView::AttrsOf(y)) => type_same_m(*x, *y),
        (OptionTypeView::ListOf(x), OptionTypeView::ListOf(y)) => type_same_m(*x, *y),
        (OptionTypeView::NullOr(x), OptionTypeView::NullOr(y)) => type_same_m(*x, *y),
        (OptionTypeView::Either(x1, x2), OptionTypeView::Either(y1, y2)) => type_same_m(*x1, *y1)
            && type_same_m(*x2, *y2),
        (OptionTypeView::Enum(xs), OptionTypeView::Enum(ys)) => xs == ys,
        (OptionTypeView::Path, OptionTypeView::Path) => true,
        (OptionTypeView::Package, OptionTypeView::Package) => true,
        (OptionTypeView::String, OptionTypeView::String) => true,
        (OptionTypeView::Float, OptionTypeView::Float) => true,
        (OptionTypeView::Bool, OptionTypeView::Bool) => true,
        (OptionTypeView::Int(x1, x2), OptionTypeView::Int(y1, y2)) => x1 == y1 && x2 == y2,
        (OptionTypeView::Unknown(x), OptionTypeView::Unknown(y)) => x == y,
        (OptionTypeView::Submodule(xs), OptionTypeView::Submodule(ys)) => nodes_same_m(xs, ys),
        _ => false,
    }
}

pub proof fn lemma_nodes_same_char(a: Seq<NodeView>, b: Seq<NodeView>)
    ensures
        nodes_same_m(a, b) <==> (a.len() == b.len() && (forall|i: int|
            0 <= i < a.len() ==> node_same_m(#[trigger] a[i], b[i]))),
    decreases a,
{
    if a.len() > 0 && a.len() == b.len() {
        lemma_nodes_same_char(a.drop_first(), b.drop_first());
        assert(forall|i: int|
            0 <= i < a.len() - 1 ==> #[trigger] a.drop_first()[i] == a[i + 1] && b.drop_first()[i]
                == b[i + 1]);
        if forall|i: int| 0 <= i < a.len() ==> node_same_m(#[trigger] a[i], b[i]) {
            assert(forall|i: int|
                0 <= i < a.drop_first().len() ==> node_same_m(
                    #[trigger] a.drop_first()[i],
                    b.drop_first()[i],
                ));
        }
        if nodes_same_m(a, b) {
            assert forall|i: int| 0 <= i < a.len() implies node_same_m(
                #[trigger] a[i],
                b[i],
            ) by {
                if i > 0 {
                    assert(a.drop_first()[i - 1] == a[i]);
                    assert(b.drop_first()[i - 1] == b[i]);
                    assert(node_same_m(a.drop_first()[i - 1], b.drop_first()[i - 1]));
                }
            }
        }
    }
}

impl OptionType {
    /// Structural comparison of two type descriptors, used by a consumer to
    /// detect a no-op update.
    pub fn same(&self, other: &OptionType) -> (r: bool)
        ensures
            r == type_same_m(self@, other@),
        decreases self@, 1int,
    {
        match (self, other) {
            (OptionType::AttrsOf(x), OptionType::AttrsOf(y)) => {
                proof {
                    assert(decreases_to!(self@ => self@->AttrsOf_0));
                }
                x.same(y)
            },
            (OptionType::ListOf(x), OptionType::ListOf(y)) => {
                proof {
                    assert(decreases_to!(self@ => self@->ListOf_0));
                }
                x.same(y)
            },
            (OptionType::NullOr(x), OptionType::NullOr(y)) => {
                proof {
                    assert(decreases_to!(self@ => self@->NullOr_0));
                }
                x.same(y)
            },
            (OptionType::Either(x1, x2), OptionType::Either(y1, y2)) => {
                proof {
                    assert(decreases_to!(self@ => self@->Either_0));
                    assert(decreases_to!(self@ => self@->Either_1));
                }
                x1.same(y1) && x2.same(y2)
            },
            (OptionType::Enum(xs), OptionType::Enum(ys)) => same_strings(xs, ys),
            (OptionType::Path, OptionType::Path) => true,
            (OptionType::Package, OptionType::Package) => true,
            (OptionType::String, OptionType::String) => true,
            (OptionType::Float, OptionType::Float) => true,
            (OptionType::Bool, OptionType::Bool) => true,
            (OptionType::Int(x1, x2), OptionType::Int(y1, y2)) => same_bound(x1, y1) && same_bound(
                x2,
                y2,
            ),
            (OptionType::Unknown(x), OptionType::Unknown(y)) => x.eq(y),
            (OptionType::Submodule(xs), OptionType::Submodule(ys)) => {
                proof {
                    assert(decreases_to!(self@ => self@->Submodule_0));
                }
                same_nodes(xs, ys)
            },
            _ => false,
        }
    }
}

fn same_bound(a: &Option<i64>, b: &Option<i64>) -> (r: bool)
    ensures
        r == (*a == *b),
{
    match (a, b) {
        (Some(x), Some(y)) => *x == *y,
        (None, None) => true,
        _ => false,
    }
}

fn same_strings(a: &Vec<String>, b: &Vec<String>) -> (r: bool)
    ensures
        r == (crate::run::strings_view(a@) == crate::run::strings_view(b@)),
{
    let ghost av = crate::run::strings_view(a@);
    let ghost bv = crate::run::strings_view(b@);
    proof {
        assert(av.len() == a@.len());
        assert(bv.len() == b@.len());
    }
    if a.len() != b.len() {
        return false;
    }
    let mut i: usize = 0;
    while i < a.len()
        invariant
            i <= a@.len(),
            a@.len() == b@.len(),
            av == crate::run::strings_view(a@),
            bv == crate::run::strings_view(b@),
            forall|j: int| 0 <= j < i ==> av[j] == bv[j],
        decreases a@.len() - i,
    {
        if !a[i].eq(&b[i]) {
            proof {
                assert(av[i as int] != bv[i as int]);
            }
            return false;
        }
        i = i + 1;
    }
    proof {
        assert(av =~= bv);
    }
    true
}

fn same_doc(a: &OptionDocumentation, b: &OptionDocumentation) -> (r: bool)
    ensures
        r == doc_same_m(doc_view(*a), doc_view(*b)),
{
    a.description.eq(&b.description) && a.type_label.eq(&b.type_label)
}

fn same_node(a: &OptionNode, b: &OptionNode) -> (r: bool)
    ensures
        r == node_same_m(a@, b@),
    decreases a@, 1int,
{
    if !a.name.eq(&b.name) {
        return false;
    }
    let docs_same = match (&a.documentation, &b.documentation) {
        (Some(x), Some(y)) => same_doc(x, y),
        (None, None) => true,
        _ => false,
    };
    if !docs_same {
        return false;
    }
    let types_same = match (&a.option_type, &b.option_type) {
        (Some(x), Some(y)) => {
            proof {
                assert(decreases_to!(a@ => a@.option_type));
                assert(decreases_to!(a@.option_type => a@.option_type->Some_0));
            }
            x.same(y)
        },
        (None, None) => true,
        _ => false,
    };
    if !types_same {
        return false;
    }
    proof {
        assert(decreases_to!(a@ => a@.children));
    }
    same_nodes(&a.children, &b.children) && a.expanded == b.expanded
}

fn same_nodes(a: &Vec<OptionNode>, b: &Vec<OptionNode>) -> (r: bool)
    ensures
        r == nodes_same_m(nodes_view(a@), nodes_view(b@)),
    decreases nodes_view(a@), 2int,
{
    let ghost av = nodes_view(a@);
    let ghost bv = nodes_view(b@);
    proof {
        lemma_nodes_view(a@);
        lemma_nodes_view(b@);
        lemma_nodes_same_char(av, bv);
    }
    if a.len() != b.len() {
        return false;
    }
    let mut i: usize = 0;
    while i < a.len()
        invariant
            i <= a@.len(),
            a@.len() == b@.len(),
            av == nodes_view(a@),
            bv == nodes_view(b@),
            av.len() == a@.len(),
            bv.len() == b@.len(),
            forall|j: int| 0 <= j < av.len() ==> av[j] == node_view(#[trigger] a@[j]),
            forall|j: int| 0 <= j < bv.len() ==> bv[j] == node_view(#[trigger] b@[j]),
            forall|j: int| 0 <= j < i ==> node_same_m(#[trigger] av[j], bv[j]),
        decreases a@.len() - i,
    {
        proof {
            assert(decreases_to!(av => av[i as int]));
        }
        if !same_node(&a[i], &b[i]) {
            proof {
                lemma_nodes_same_char(av, bv);
            }
            return false;
        }
        i = i + 1;
    }
    proof {
        lemma_nodes_same_char(av, bv);
    }
    true
}

pub proof fn lemma_build_set_m(s: Seq<(Seq<char>, NixValueView)>)
    ensures
        build_set_m(s).len() == s.len(),
        forall|i: int|
            0 <= i < s.len() ==> build_set_m(s)[i] == build_node_m(
                (#[trigger] s[i]).0,
                s[i].1,
            ),
    decreases s,
{
    if s.len() > 0 {
        lemma_build_set_m(s.drop_first());
        assert forall|i: int| 0 <= i < s.len() implies build_set_m(s)[i] == build_node_m(
            (#[trigger] s[i]).0,
            s[i].1,
        ) by {
            if i > 0 {
                assert(s.drop_first()[i - 1] == s[i]);
            }
        }
    }
}

} // verus!
