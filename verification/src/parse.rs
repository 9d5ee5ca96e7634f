//! The raw schema and config grammar.
//!
//! A schema document is a nested mapping of "sets" and "options"; a config
//! document is an arbitrary JSON tree with a few domain markers (derivations,
//! functions, evaluation errors, literal expressions) recognised by shape.
//! The decoders here turn a raw `JsonValue` into these types; the shapes are
//! untagged, so each decoder tries the marker shapes in a fixed priority
//! order before falling back to the generic forms.

use vstd::prelude::*;

use crate::json::JsonValue;
use crate::json::JsonValueView;
use crate::json::json_entries_view;
use crate::json::lemma_json_entries_view;
use crate::json::lemma_json_seq_view;
use crate::json::json_seq_view;
use crate::json::json_view;

verus! {

/// Marker shape: an object whose `_type` field is a boolean.
#[derive(Debug)]
pub struct NixGuardedOptionType {}

/// Marker shape: a build product, recognised by a `_derivation` flag and
/// carrying the derivation's name.
#[derive(Debug)]
pub struct NixDerivation {
    pub name: String,
}

/// Marker shape: a function value, recognised by a `_function` flag.
#[derive(Debug)]
pub struct NixFunction {}

/// Marker shape: an evaluation error, recognised by an `_error` flag.
#[derive(Debug)]
pub struct NixTryEvalError {}

/// Marker shape: a literal expression, recognised by a string `_type` tag
/// beside a string `text` field.
#[derive(Debug)]
pub struct NixLiteralExpression {
    pub text: String,
}

/// A decoded config value: the shape of JSON plus the domain markers.
#[derive(Debug)]
pub enum NixGuardedValue {
    LiteralExpression(NixLiteralExpression),
    Function(NixFunction),
    Error(NixTryEvalError),
    Derivation(NixDerivation),
    OptionType(NixGuardedOptionType),
    Attrs(Vec<(String, NixGuardedValue)>),
    List(Vec<NixGuardedValue>),
    String(String),
    Number(i64),
    /// A number that does not fit `i64`, kept as its decimal text.
    Float(String),
    Bool(bool),
    Null,
}

/// The mathematical form of a `NixGuardedValue`.
pub enum GuardedValueView {
    LiteralExpression(Seq<char>),
    Function,
    Error,
    Derivation(Seq<char>),
    OptionType,
    Attrs(Seq<(Seq<char>, GuardedValueView)>),
    List(Seq<GuardedValueView>),
    String(Seq<char>),
    Number(i64),
    Float(Seq<char>),
    Bool(bool),
    Null,
}

pub open spec fn guarded_view(v: NixGuardedValue) -> GuardedValueView
    decreases v,
{
    match v {
        NixGuardedValue::LiteralExpression(e) => GuardedValueView::LiteralExpression(e.text@),
        NixGuardedValue::Function(_) => GuardedValueView::Function,
        NixGuardedValue::Error(_) => GuardedValueView::Error,
        NixGuardedValue::Derivation(d) => GuardedValueView::Derivation(d.name@),
        NixGuardedValue::OptionType(_) => GuardedValueView::OptionType,
        NixGuardedValue::Attrs(entries) => GuardedValueView::Attrs(guarded_entries_view(entries@)),
        NixGuardedValue::List(items) => GuardedValueView::List(guarded_seq_view(items@)),
        NixGuardedValue::String(s) => GuardedValueView::String(s@),
        NixGuardedValue::Number(n) => GuardedValueView::Number(n),
        NixGuardedValue::Float(s) => GuardedValueView::Float(s@),
        NixGuardedValue::Bool(b) => GuardedValueView::Bool(b),
        NixGuardedValue::Null => GuardedValueView::Null,
    }
}

pub open spec fn guarded_seq_view(s: Seq<NixGuardedValue>) -> Seq<GuardedValueView>
    decreases s,
{
    if s.len() == 0 {
        Seq::empty()
    } else {
        seq![guarded_view(s[0])] + guarded_seq_view(s.drop_first())
    }
}

pub open spec fn guarded_entries_view(s: Seq<(String, NixGuardedValue)>) -> Seq<
    (Seq<char>, GuardedValueView),
>
    decreases s,
{
    if s.len() == 0 {
        Seq::empty()
    } else {
        seq![(s[0].0@, guarded_view(s[0].1))] + guarded_entries_view(s.drop_first())
    }
}

impl View for NixGuardedValue {
    type V = GuardedValueView;

    open spec fn view(&self) -> GuardedValueView {
        guarded_view(*self)
    }
}

pub proof fn lemma_guarded_seq_view(s: Seq<NixGuardedValue>)
    ensures
        guarded_seq_view(s).len() == s.len(),
        forall|i: int|
            0 <= i < s.len() ==> guarded_seq_view(s)[i] == guarded_view(#[trigger] s[i]),
    decreases s,
{
    if s.len() > 0 {
        lemma_guarded_seq_view(s.drop_first());
        assert forall|i: int| 0 <= i < s.len() implies guarded_seq_view(s)[i] == guarded_view(
            #[trigger] s[i],
        ) by {
            if i > 0 {
                assert(s.drop_first()[i - 1] == s[i]);
            }
        }
    }
}

pub proof fn lemma_guarded_entries_view(s: Seq<(String, NixGuardedValue)>)
    ensures
        guarded_entries_view(s).len() == s.len(),
        forall|i: int|
            0 <= i < s.len() ==> guarded_entries_view(s)[i] == ((#[trigger] s[i]).0@, guarded_view(
                s[i].1,
            )),
    decreases s,
{
    if s.len() > 0 {
        lemma_guarded_entries_view(s.drop_first());
        assert forall|i: int| 0 <= i < s.len() implies guarded_entries_view(s)[i] == ((
        #[trigger] s[i]).0@, guarded_view(s[i].1)) by {
            if i > 0 {
                assert(s.drop_first()[i - 1] == s[i]);
            }
        }
    }
}

impl NixGuardedValue {
    /// A copy holding the same value.
    pub fn deep_clone(&self) -> (r: Self)
        ensures
            r@ == self@,
        decreases self@,
    {
        match self {
            NixGuardedValue::LiteralExpression(e) => NixGuardedValue::LiteralExpression(
                NixLiteralExpression { text: e.text.clone() },
            ),
            NixGuardedValue::Function(_) => NixGuardedValue::Function(NixFunction {  }),
            NixGuardedValue::Error(_) => NixGuardedValue::Error(NixTryEvalError {  }),
            NixGuardedValue::Derivation(d) => NixGuardedValue::Derivation(
                NixDerivation { name: d.name.clone() },
            ),
            NixGuardedValue::OptionType(_) => NixGuardedValue::OptionType(
                NixGuardedOptionType {  },
            ),
            NixGuardedValue::Attrs(entries) => {
                proof {
                    assert(decreases_to!(self@ => self@->Attrs_0));
                }
                NixGuardedValue::Attrs(clone_guarded_entries(entries))
            },
            NixGuardedValue::List(items) => {
                proof {
                    assert(decreases_to!(self@ => self@->List_0));
                }
                NixGuardedValue::List(clone_guarded_list(items))
            },
            NixGuardedValue::String(s) => NixGuardedValue::String(s.clone()),
            NixGuardedValue::Number(n) => NixGuardedValue::Number(*n),
            NixGuardedValue::Float(s) => NixGuardedValue::Float(s.clone()),
            NixGuardedValue::Bool(b) => NixGuardedValue::Bool(*b),
            NixGuardedValue::Null => NixGuardedValue::Null,
        }
    }
}

fn clone_guarded_list(v: &Vec<NixGuardedValue>) -> (r: Vec<NixGuardedValue>)
    ensures
        guarded_seq_view(r@) == guarded_seq_view(v@),
    decreases guarded_seq_view(v@),
{
    let mut out: Vec<NixGuardedValue> = Vec::new();
    let mut i: usize = 0;
    while i < v.len()
        invariant
            i <= v@.len(),
            out@.len() == i,
            forall|j: int| 0 <= j < i ==> guarded_view(#[trigger] out@[j]) == guarded_view(v@[j]),
        decreases v@.len() - i,
    {
        proof {
            lemma_guarded_seq_view(v@);
            assert(decreases_to!(guarded_seq_view(v@) => guarded_seq_view(v@)[i as int]));
        }
        let c = v[i].deep_clone();
        out.push(c);
        i = i + 1;
    }
    proof {
        lemma_guarded_seq_view(v@);
        lemma_guarded_seq_view(out@);
        assert forall|j: int| 0 <= j < v@.len() implies guarded_seq_view(out@)[j]
            == guarded_seq_view(v@)[j] by {
            assert(guarded_view(out@[j]) == guarded_view(v@[j]));
        }
        assert(guarded_seq_view(out@) =~= guarded_seq_view(v@));
    }
    out
}

fn clone_guarded_entries(v: &Vec<(String, NixGuardedValue)>) -> (r: Vec<(String, NixGuardedValue)>)
    ensures
        guarded_entries_view(r@) == guarded_entries_view(v@),
    decreases guarded_entries_view(v@),
{
    let mut out: Vec<(String, NixGuardedValue)> = Vec::new();
    let mut i: usize = 0;
    while i < v.len()
        invariant
            i <= v@.len(),
            out@.len() == i,
            forall|j: int|
                0 <= j < i ==> (#[trigger] out@[j]).0@ == v@[j].0@ && guarded_view(out@[j].1)
                    == guarded_view(v@[j].1),
        decreases v@.len() - i,
    {
        proof {
            lemma_guarded_entries_view(v@);
            assert(decreases_to!(guarded_entries_view(v@) => guarded_entries_view(v@)[i as int]));
            assert(decreases_to!(guarded_entries_view(v@)[i as int] => guarded_entries_view(
                v@,
            )[i as int].1));
        }
        let k = v[i].0.clone();
        let c = v[i].1.deep_clone();
        out.push((k, c));
        i = i + 1;
    }
    proof {
        lemma_guarded_entries_view(v@);
        lemma_guarded_entries_view(out@);
        assert forall|j: int| 0 <= j < v@.len() implies guarded_entries_view(out@)[j]
            == guarded_entries_view(v@)[j] by {
            assert(out@[j].0@ == v@[j].0@ && guarded_view(out@[j].1) == guarded_view(v@[j].1));
        }
        assert(guarded_entries_view(out@) =~= guarded_entries_view(v@));
    }
    out
}

/// A copy of an optional config value, holding the same value.
pub fn clone_opt_guarded(v: &Option<NixGuardedValue>) -> (r: Option<NixGuardedValue>)
    ensures
        opt_guarded_view(r) == opt_guarded_view(*v),
{
    match v {
        Some(g) => Some(g.deep_clone()),
        None => None,
    }
}

/// An inline nested schema: a submodule carries its own option set.
#[derive(Debug)]
pub struct NixSubmodule {
    pub options: Vec<(String, NixValue)>,
}

/// A named type descriptor, possibly carrying nested element types.
#[derive(Debug)]
pub struct NixType {
    pub description: String,
    pub name: String,
    pub nested_types: Vec<(String, NixTypeValue)>,
}

/// The sentinel shape reported when schema evaluation hit infinite recursion.
#[derive(Debug)]
pub struct NixInfiniteRecursion {}

/// A raw type value: a named type, an inline submodule, or the infinite
/// recursion sentinel.
#[derive(Debug)]
pub enum NixTypeValue {
    Type(NixType),
    Submodule(NixSubmodule),
    InfiniteRecursion(NixInfiniteRecursion),
}

impl NixTypeValue {
    pub fn get_submodule(&self) -> (r: Option<&NixSubmodule>)
        ensures
            match *self {
                NixTypeValue::Submodule(_) => r matches Some(s) && *s == self->Submodule_0,
                _ => r is None,
            },
    {
        match self {
            NixTypeValue::Submodule(s) => Some(s),
            _ => None,
        }
    }
}

/// An option leaf of the schema: documentation beside a raw type value.
#[derive(Debug)]
pub struct NixOption {
    pub description: String,
    pub type_value: NixTypeValue,
    pub default: Option<NixGuardedValue>,
    pub example: Option<NixGuardedValue>,
}

/// A schema node: an option leaf or a set of named children.
#[derive(Debug)]
pub enum NixValue {
    Option(NixOption),
    Group(Vec<(String, NixValue)>),
}

/// The mathematical form of a `NixType`.
pub struct NixTypeView {
    pub description: Seq<char>,
    pub name: Seq<char>,
    pub nested_types: Seq<(Seq<char>, TypeValueView)>,
}

/// The mathematical form of a `NixTypeValue`.
pub enum TypeValueView {
    Type(NixTypeView),
    Submodule(Seq<(Seq<char>, NixValueView)>),
    InfiniteRecursion,
}

/// The mathematical form of a `NixOption`.
pub struct NixOptionView {
    pub description: Seq<char>,
    pub type_value: TypeValueView,
    pub default: Option<GuardedValueView>,
    pub example: Option<GuardedValueView>,
}

/// The mathematical form of a `NixValue`.
pub enum NixValueView {
    Option(NixOptionView),
    Group(Seq<(Seq<char>, NixValueView)>),
}

pub open spec fn type_value_view(t: NixTypeValue) -> TypeValueView
    decreases t,
{
    match t {
        NixTypeValue::Type(ty) => TypeValueView::Type(
            NixTypeView {
                description: ty.description@,
                name: ty.name@,
                nested_types: type_entries_view(ty.nested_types@),
            },
        ),
        NixTypeValue::Submodule(sub) => TypeValueView::Submodule(set_view(sub.options@)),
        NixTypeValue::InfiniteRecursion(_) => TypeValueView::InfiniteRecursion,
    }
}

pub open spec fn type_entries_view(s: Seq<(String, NixTypeValue)>) -> Seq<
    (Seq<char>, TypeValueView),
>
    decreases s,
{
    if s.len() == 0 {
        Seq::empty()
    } else {
        seq![(s[0].0@, type_value_view(s[0].1))] + type_entries_view(s.drop_first())
    }
}

pub open spec fn nix_option_view(opt: NixOption) -> NixOptionView
    decreases opt,
{
    NixOptionView {
        description: opt.description@,
        type_value: type_value_view(opt.type_value),
        default: opt_guarded_view(opt.default),
        example: opt_guarded_view(opt.example),
    }
}

pub open spec fn nix_value_view(v: NixValue) -> NixValueView
    decreases v,
{
    match v {
        NixValue::Option(opt) => NixValueView::Option(nix_option_view(opt)),
        NixValue::Group(entries) => NixValueView::Group(set_view(entries@)),
    }
}

pub open spec fn set_view(s: Seq<(String, NixValue)>) -> Seq<(Seq<char>, NixValueView)>
    decreases s,
{
    if s.len() == 0 {
        Seq::empty()
    } else {
        seq![(s[0].0@, nix_value_view(s[0].1))] + set_view(s.drop_first())
    }
}

impl View for NixTypeValue {
    type V = TypeValueView;

    open spec fn view(&self) -> TypeValueView {
        type_value_view(*self)
    }
}

impl View for NixValue {
    type V = NixValueView;

    open spec fn view(&self) -> NixValueView {
        nix_value_view(*self)
    }
}

pub proof fn lemma_type_entries_view(s: Seq<(String, NixTypeValue)>)
    ensures
        type_entries_view(s).len() == s.len(),
        forall|i: int|
            0 <= i < s.len() ==> type_entries_view(s)[i] == ((#[trigger] s[i]).0@, type_value_view(
                s[i].1,
            )),
    decreases s,
{
    if s.len() > 0 {
        lemma_type_entries_view(s.drop_first());
        assert forall|i: int| 0 <= i < s.len() implies type_entries_view(s)[i] == ((
        #[trigger] s[i]).0@, type_value_view(s[i].1)) by {
            if i > 0 {
                assert(s.drop_first()[i - 1] == s[i]);
            }
        }
    }
}

pub proof fn lemma_set_view(s: Seq<(String, NixValue)>)
    ensures
        set_view(s).len() == s.len(),
        forall|i: int|
            0 <= i < s.len() ==> set_view(s)[i] == ((#[trigger] s[i]).0@, nix_value_view(s[i].1)),
    decreases s,
{
    if s.len() > 0 {
        lemma_set_view(s.drop_first());
        assert forall|i: int| 0 <= i < s.len() implies set_view(s)[i] == ((#[trigger] s[i]).0@,
        nix_value_view(s[i].1)) by {
            if i > 0 {
                assert(s.drop_first()[i - 1] == s[i]);
            }
        }
    }
}

/// The index of the first entry of `s` keyed by `k`.
pub open spec fn find_index<T>(s: Seq<(Seq<char>, T)>, k: Seq<char>) -> Option<int>
    decreases s,
{
    if s.len() == 0 {
        None
    } else if s[0].0 == k {
        Some(0)
    } else {
        match find_index(s.drop_first(), k) {
            Some(i) => Some(i + 1),
            None => None,
        }
    }
}

/// The value of the first entry of `s` keyed by `k`.
pub open spec fn find_entry<T>(s: Seq<(Seq<char>, T)>, k: Seq<char>) -> Option<T> {
    match find_index(s, k) {
        Some(i) => Some(s[i].1),
        None => None,
    }
}

pub proof fn lemma_find_index<T>(s: Seq<(Seq<char>, T)>, k: Seq<char>)
    ensures
        match find_index(s, k) {
            Some(i) => 0 <= i < s.len() && s[i].0 == k && (forall|j: int|
                0 <= j < i ==> (#[trigger] s[j]).0 != k),
            None => forall|j: int| 0 <= j < s.len() ==> (#[trigger] s[j]).0 != k,
        },
    decreases s,
{
    if s.len() > 0 && s[0].0 != k {
        lemma_find_index(s.drop_first(), k);
        match find_index(s.drop_first(), k) {
            Some(i) => {
                assert(s.drop_first()[i] == s[i + 1]);
                assert forall|j: int| 0 <= j < i + 1 implies (#[trigger] s[j]).0 != k by {
                    if j > 0 {
                        assert(s.drop_first()[j - 1] == s[j]);
                    }
                }
            },
            None => {
                assert forall|j: int| 0 <= j < s.len() implies (#[trigger] s[j]).0 != k by {
                    if j > 0 {
                        assert(s.drop_first()[j - 1] == s[j]);
                    }
                }
            },
        }
    }
}

/// A first match at `i` pins `find_index` down.
pub proof fn lemma_find_index_witness<T>(s: Seq<(Seq<char>, T)>, k: Seq<char>, i: int)
    requires
        0 <= i < s.len(),
        s[i].0 == k,
        forall|j: int| 0 <= j < i ==> (#[trigger] s[j]).0 != k,
    ensures
        find_index(s, k) == Some(i),
{
    lemma_find_index(s, k);
}

/// The named entry exists and is a boolean.
pub open spec fn entry_is_bool(s: Seq<(Seq<char>, JsonValueView)>, k: Seq<char>) -> bool {
    find_entry(s, k) matches Some(JsonValueView::Bool(_))
}

/// The named entry exists and is a string.
pub open spec fn entry_is_str(s: Seq<(Seq<char>, JsonValueView)>, k: Seq<char>) -> bool {
    find_entry(s, k) matches Some(JsonValueView::Str(_))
}

/// The characters of the named string entry.
pub open spec fn str_entry(s: Seq<(Seq<char>, JsonValueView)>, k: Seq<char>) -> Seq<char>
    recommends
        entry_is_str(s, k),
{
    match find_entry(s, k) {
        Some(JsonValueView::Str(t)) => t,
        _ => Seq::empty(),
    }
}

/// An object shaped as a derivation: a `_derivation` flag beside a name.
pub open spec fn is_derivation_shape(s: Seq<(Seq<char>, JsonValueView)>) -> bool {
    entry_is_bool(s, "_derivation"@) && entry_is_str(s, "name"@)
}

/// An object shaped as a function marker.
pub open spec fn is_function_shape(s: Seq<(Seq<char>, JsonValueView)>) -> bool {
    entry_is_bool(s, "_function"@)
}

/// An object shaped as an evaluation error marker.
pub open spec fn is_eval_error_shape(s: Seq<(Seq<char>, JsonValueView)>) -> bool {
    entry_is_bool(s, "_error"@)
}

/// An object shaped as a literal expression: a string `_type` tag beside text.
pub open spec fn is_literal_expression_shape(s: Seq<(Seq<char>, JsonValueView)>) -> bool {
    entry_is_str(s, "_type"@) && entry_is_str(s, "text"@)
}

/// An object shaped as an option type marker: a boolean `_type` flag.
pub open spec fn is_option_type_shape(s: Seq<(Seq<char>, JsonValueView)>) -> bool {
    entry_is_bool(s, "_type"@)
}

/// Decoding of a config value.  Total: every raw JSON value decodes.  The
/// marker shapes are tried in a fixed priority order — derivation, function,
/// evaluation error, literal expression, option type — before the generic
/// object, array and scalar forms.
pub open spec fn dec_guarded(j: JsonValueView) -> GuardedValueView
    decreases j,
{
    match j {
        JsonValueView::Obj(s) => if is_derivation_shape(s) {
            GuardedValueView::Derivation(str_entry(s, "name"@))
        } else if is_function_shape(s) {
            GuardedValueView::Function
        } else if is_eval_error_shape(s) {
            GuardedValueView::Error
        } else if is_literal_expression_shape(s) {
            GuardedValueView::LiteralExpression(str_entry(s, "text"@))
        } else if is_option_type_shape(s) {
            GuardedValueView::OptionType
        } else {
            GuardedValueView::Attrs(dec_guarded_entries(s))
        },
        JsonValueView::Arr(items) => GuardedValueView::List(dec_guarded_seq(items)),
        JsonValueView::Str(s) => GuardedValueView::String(s),
        JsonValueView::Int(i) => GuardedValueView::Number(i),
        JsonValueView::Num(s) => GuardedValueView::Float(s),
        JsonValueView::Bool(b) => GuardedValueView::Bool(b),
        JsonValueView::Null => GuardedValueView::Null,
    }
}

pub open spec fn dec_guarded_seq(s: Seq<JsonValueView>) -> Seq<GuardedValueView>
    decreases s,
{
    if s.len() == 0 {
        Seq::empty()
    } else {
        seq![dec_guarded(s[0])] + dec_guarded_seq(s.drop_first())
    }
}

pub open spec fn dec_guarded_entries(s: Seq<(Seq<char>, JsonValueView)>) -> Seq<
    (Seq<char>, GuardedValueView),
>
    decreases s,
{
    if s.len() == 0 {
        Seq::empty()
    } else {
        seq![(s[0].0, dec_guarded(s[0].1))] + dec_guarded_entries(s.drop_first())
    }
}

pub proof fn lemma_dec_guarded_seq(s: Seq<JsonValueView>)
    ensures
        dec_guarded_seq(s).len() == s.len(),
        forall|i: int|
            0 <= i < s.len() ==> dec_guarded_seq(s)[i] == dec_guarded(#[trigger] s[i]),
    decreases s,
{
    if s.len() > 0 {
        lemma_dec_guarded_seq(s.drop_first());
        assert forall|i: int| 0 <= i < s.len() implies dec_guarded_seq(s)[i] == dec_guarded(
            #[trigger] s[i],
        ) by {
            if i > 0 {
                assert(s.drop_first()[i - 1] == s[i]);
            }
        }
    }
}

pub proof fn lemma_dec_guarded_entries(s: Seq<(Seq<char>, JsonValueView)>)
    ensures
        dec_guarded_entries(s).len() == s.len(),
        forall|i: int|
            0 <= i < s.len() ==> dec_guarded_entries(s)[i] == ((#[trigger] s[i]).0, dec_guarded(
                s[i].1,
            )),
    decreases s,
{
    if s.len() > 0 {
        lemma_dec_guarded_entries(s.drop_first());
        assert forall|i: int| 0 <= i < s.len() implies dec_guarded_entries(s)[i] == ((
        #[trigger] s[i]).0, dec_guarded(s[i].1)) by {
            if i > 0 {
                assert(s.drop_first()[i - 1] == s[i]);
            }
        }
    }
}

/// Decoding of an optional documentation value: a missing or null entry is
/// no value at all.
pub open spec fn dec_opt_guarded(e: Option<JsonValueView>) -> Option<GuardedValueView> {
    match e {
        None => None,
        Some(JsonValueView::Null) => None,
        Some(v) => Some(dec_guarded(v)),
    }
}

/// Decoding of a raw type value, tried shape by shape: a named type first,
/// then an inline submodule, then the infinite recursion sentinel.  `None`
/// where no shape matches.
pub open spec fn dec_type_value(j: JsonValueView) -> Option<TypeValueView>
    decreases j, 1int,
    via dec_type_value_dec
{
    match j {
        JsonValueView::Obj(s) => {
            if entry_is_bool(s, "_type"@) && entry_is_str(s, "description"@) && entry_is_str(
                s,
                "functorName"@,
            ) && entry_is_str(s, "name"@) && (find_entry(s, "nestedTypes"@) matches Some(
                JsonValueView::Obj(_),
            )) && dec_type_entries(obj_entry(s, "nestedTypes"@)) is Some {
                Some(
                    TypeValueView::Type(
                        NixTypeView {
                            description: str_entry(s, "description"@),
                            name: str_entry(s, "name"@),
                            nested_types: dec_type_entries(
                                obj_entry(s, "nestedTypes"@),
                            )->Some_0,
                        },
                    ),
                )
            } else if entry_is_bool(s, "_submodule"@) && (find_entry(s, "options"@) matches Some(
                JsonValueView::Obj(_),
            )) && dec_set(obj_entry(s, "options"@)) is Some {
                Some(TypeValueView::Submodule(dec_set(obj_entry(s, "options"@))->Some_0))
            } else if entry_is_bool(s, "_infiniteRecursion"@) {
                Some(TypeValueView::InfiniteRecursion)
            } else {
                None
            }
        },
        _ => None,
    }
}

/// The entries of the named object entry.
pub open spec fn obj_entry(s: Seq<(Seq<char>, JsonValueView)>, k: Seq<char>) -> Seq<
    (Seq<char>, JsonValueView),
> {
    match find_entry(s, k) {
        Some(JsonValueView::Obj(e)) => e,
        _ => Seq::empty(),
    }
}

#[via_fn]
proof fn dec_type_value_dec(j: JsonValueView) {
    if let JsonValueView::Obj(s) = j {
        if find_entry(s, "nestedTypes"@) matches Some(JsonValueView::Obj(_)) {
            lemma_obj_entry_decreases(j, "nestedTypes"@);
        }
        if find_entry(s, "options"@) matches Some(JsonValueView::Obj(_)) {
            lemma_obj_entry_decreases(j, "options"@);
        }
    }
}

/// A named object entry of `j` stands below `j` in the termination order.
proof fn lemma_obj_entry_decreases(j: JsonValueView, k: Seq<char>)
    requires
        j matches JsonValueView::Obj(s) && find_entry(s, k) matches Some(JsonValueView::Obj(_)),
    ensures
        decreases_to!(j, 1int => j->Obj_0.index(find_index(j->Obj_0, k)->Some_0).1->Obj_0, 2int),
{
    let s = j->Obj_0;
    lemma_find_index(s, k);
    let i = find_index(s, k)->Some_0;
    assert(decreases_to!(j => s));
    assert(decreases_to!(s => s[i]));
    assert(decreases_to!(s[i] => s[i].1));
    assert(decreases_to!(s[i].1 => s[i].1->Obj_0));
}

/// Decoding of an object of raw type values: `None` where any entry fails.
pub open spec fn dec_type_entries(s: Seq<(Seq<char>, JsonValueView)>) -> Option<
    Seq<(Seq<char>, TypeValueView)>,
>
    decreases s, 2int,
{
    if s.len() == 0 {
        Some(Seq::empty())
    } else {
        match dec_type_value(s[0].1) {
            None => None,
            Some(t) => match dec_type_entries(s.drop_first()) {
                None => None,
                Some(r) => Some(seq![(s[0].0, t)] + r),
            },
        }
    }
}

/// Decoding of a schema node, tried shape by shape: an option leaf first,
/// then a set of named children.  `None` where neither matches.
pub open spec fn dec_nix_value(j: JsonValueView) -> Option<NixValueView>
    decreases j, 1int,
    via dec_nix_value_dec
{
    match j {
        JsonValueView::Obj(s) => {
            if entry_is_bool(s, "_option"@) && entry_is_str(s, "description"@) && (find_entry(
                s,
                "type"@,
            ) matches Some(jt)) && dec_type_value(find_entry(s, "type"@)->Some_0) is Some {
                Some(
                    NixValueView::Option(
                        NixOptionView {
                            description: str_entry(s, "description"@),
                            type_value: dec_type_value(find_entry(s, "type"@)->Some_0)->Some_0,
                            default: dec_opt_guarded(find_entry(s, "default"@)),
                            example: dec_opt_guarded(find_entry(s, "example"@)),
                        },
                    ),
                )
            } else {
                match dec_set(s) {
                    Some(g) => Some(NixValueView::Group(g)),
                    None => None,
                }
            }
        },
        _ => None,
    }
}

#[via_fn]
proof fn dec_nix_value_dec(j: JsonValueView) {
    if let JsonValueView::Obj(s) = j {
        lemma_find_index(s, "type"@);
        if find_index(s, "type"@) is Some {
            let i = find_index(s, "type"@)->Some_0;
            assert(decreases_to!(j => s));
            assert(decreases_to!(s => s[i]));
            assert(decreases_to!(s[i] => s[i].1));
        }
    }
}

/// Decoding of a set of schema nodes: `None` where any entry fails.
pub open spec fn dec_set(s: Seq<(Seq<char>, JsonValueView)>) -> Option<
    Seq<(Seq<char>, NixValueView)>,
>
    decreases s, 2int,
{
    if s.len() == 0 {
        Some(Seq::empty())
    } else {
        match dec_nix_value(s[0].1) {
            None => None,
            Some(v) => match dec_set(s.drop_first()) {
                None => None,
                Some(r) => Some(seq![(s[0].0, v)] + r),
            },
        }
    }
}

pub proof fn lemma_dec_type_entries_char(s: Seq<(Seq<char>, JsonValueView)>)
    ensures
        dec_type_entries(s) is Some <==> (forall|i: int|
            0 <= i < s.len() ==> dec_type_value((#[trigger] s[i]).1) is Some),
        dec_type_entries(s) matches Some(r) ==> r.len() == s.len() && (forall|i: int|
            0 <= i < s.len() ==> #[trigger] r[i] == (s[i].0, dec_type_value(s[i].1)->Some_0)),
    decreases s,
{
    if s.len() > 0 {
        let t = s.drop_first();
        lemma_dec_type_entries_char(t);
        assert(forall|j: int| 0 <= j < t.len() ==> #[trigger] t[j] == s[j + 1]);
        if forall|i: int| 0 <= i < s.len() ==> dec_type_value((#[trigger] s[i]).1) is Some {
            assert(forall|j: int|
                0 <= j < t.len() ==> dec_type_value((#[trigger] t[j]).1) is Some);
            let r = dec_type_entries(s)->Some_0;
            let rt = dec_type_entries(t)->Some_0;
            assert(forall|j: int| 0 <= j < rt.len() ==> #[trigger] r[j + 1] == rt[j]);
            assert(forall|i: int|
                0 <= i < s.len() ==> #[trigger] r[i] == (s[i].0, dec_type_value(s[i].1)->Some_0));
        } else {
            let i = choose|i: int|
                0 <= i < s.len() && !(dec_type_value((#[trigger] s[i]).1) is Some);
            if i > 0 {
                assert(t[i - 1] == s[i]);
                assert(dec_type_entries(t) is None);
            }
        }
    }
}

pub proof fn lemma_dec_set_char(s: Seq<(Seq<char>, JsonValueView)>)
    ensures
        dec_set(s) is Some <==> (forall|i: int|
            0 <= i < s.len() ==> dec_nix_value((#[trigger] s[i]).1) is Some),
        dec_set(s) matches Some(r) ==> r.len() == s.len() && (forall|i: int|
            0 <= i < s.len() ==> #[trigger] r[i] == (s[i].0, dec_nix_value(s[i].1)->Some_0)),
    decreases s,
{
    if s.len() > 0 {
        let t = s.drop_first();
        lemma_dec_set_char(t);
        assert(forall|j: int| 0 <= j < t.len() ==> #[trigger] t[j] == s[j + 1]);
        if forall|i: int| 0 <= i < s.len() ==> dec_nix_value((#[trigger] s[i]).1) is Some {
            assert(forall|j: int| 0 <= j < t.len() ==> dec_nix_value((#[trigger] t[j]).1) is Some);
            let r = dec_set(s)->Some_0;
            let rt = dec_set(t)->Some_0;
            assert(forall|j: int| 0 <= j < rt.len() ==> #[trigger] r[j + 1] == rt[j]);
            assert(forall|i: int|
                0 <= i < s.len() ==> #[trigger] r[i] == (s[i].0, dec_nix_value(s[i].1)->Some_0));
        } else {
            let i = choose|i: int|
                0 <= i < s.len() && !(dec_nix_value((#[trigger] s[i]).1) is Some);
            if i > 0 {
                assert(t[i - 1] == s[i]);
                assert(dec_set(t) is None);
            }
        }
    }
}

/// The raw type grammar: a named type whose nested types all follow the
/// grammar, an inline submodule whose options follow the schema grammar, or
/// the infinite recursion sentinel.
pub open spec fn type_grammar(j: JsonValueView) -> bool
    decreases j,
    via type_grammar_dec
{
    match j {
        JsonValueView::Obj(s) => {
            ||| {
                &&& entry_is_bool(s, "_type"@)
                &&& entry_is_str(s, "description"@)
                &&& entry_is_str(s, "functorName"@)
                &&& entry_is_str(s, "name"@)
                &&& find_entry(s, "nestedTypes"@) matches Some(JsonValueView::Obj(_))
                &&& forall|i: int|
                    0 <= i < obj_entry(s, "nestedTypes"@).len() ==> type_grammar(
                        (#[trigger] obj_entry(s, "nestedTypes"@)[i]).1,
                    )
            }
            ||| {
                &&& entry_is_bool(s, "_submodule"@)
                &&& find_entry(s, "options"@) matches Some(JsonValueView::Obj(_))
                &&& forall|i: int|
                    0 <= i < obj_entry(s, "options"@).len() ==> schema_grammar(
                        (#[trigger] obj_entry(s, "options"@)[i]).1,
                    )
            }
            ||| entry_is_bool(s, "_infiniteRecursion"@)
        },
        _ => false,
    }
}

#[via_fn]
proof fn type_grammar_dec(j: JsonValueView) {
    if let JsonValueView::Obj(s) = j {
        if find_entry(s, "nestedTypes"@) matches Some(JsonValueView::Obj(_)) {
            lemma_obj_entry_decreases(j, "nestedTypes"@);
            let ne = obj_entry(s, "nestedTypes"@);
            assert forall|i: int| 0 <= i < ne.len() implies decreases_to!(j => (
            #[trigger] ne[i]).1) by {
                assert(decreases_to!(ne => ne[i]));
                assert(decreases_to!(ne[i] => ne[i].1));
            }
        }
        if find_entry(s, "options"@) matches Some(JsonValueView::Obj(_)) {
            lemma_obj_entry_decreases(j, "options"@);
            let oe = obj_entry(s, "options"@);
            assert forall|i: int| 0 <= i < oe.len() implies decreases_to!(j => (
            #[trigger] oe[i]).1) by {
                assert(decreases_to!(oe => oe[i]));
                assert(decreases_to!(oe[i] => oe[i].1));
            }
        }
    }
}

/// The schema grammar: an option leaf carries a description and a
/// grammatical raw type; a set is an object whose values all follow the
/// schema grammar.
pub open spec fn schema_grammar(j: JsonValueView) -> bool
    decreases j,
    via schema_grammar_dec
{
    match j {
        JsonValueView::Obj(s) => {
            ||| {
                &&& entry_is_bool(s, "_option"@)
                &&& entry_is_str(s, "description"@)
                &&& find_entry(s, "type"@) matches Some(jt) && type_grammar(jt)
            }
            ||| forall|i: int| 0 <= i < s.len() ==> schema_grammar((#[trigger] s[i]).1)
        },
        _ => false,
    }
}

#[via_fn]
proof fn schema_grammar_dec(j: JsonValueView) {
    if let JsonValueView::Obj(s) = j {
        lemma_find_index(s, "type"@);
        if find_index(s, "type"@) is Some {
            let i = find_index(s, "type"@)->Some_0;
            assert(decreases_to!(j => s));
            assert(decreases_to!(s => s[i]));
            assert(decreases_to!(s[i] => s[i].1));
        }
        assert forall|i: int| 0 <= i < s.len() implies decreases_to!(j => (#[trigger] s[i]).1) by {
            assert(decreases_to!(j => s));
            assert(decreases_to!(s => s[i]));
            assert(decreases_to!(s[i] => s[i].1));
        }
    }
}

/// Decoder totality for raw type values: decoding succeeds exactly on the
/// type grammar.
pub proof fn lemma_type_totality(j: JsonValueView)
    ensures
        dec_type_value(j) is Some <==> type_grammar(j),
    decreases j,
{
    if let JsonValueView::Obj(s) = j {
        if find_entry(s, "nestedTypes"@) matches Some(JsonValueView::Obj(_)) {
            let ne = obj_entry(s, "nestedTypes"@);
            lemma_obj_entry_decreases(j, "nestedTypes"@);
            lemma_dec_type_entries_char(ne);
            assert forall|i: int| 0 <= i < ne.len() implies (dec_type_value(
                (#[trigger] ne[i]).1,
            ) is Some <==> type_grammar(ne[i].1)) by {
                assert(decreases_to!(ne => ne[i]));
                assert(decreases_to!(ne[i] => ne[i].1));
                lemma_type_totality(ne[i].1);
            }
        }
        if find_entry(s, "options"@) matches Some(JsonValueView::Obj(_)) {
            let oe = obj_entry(s, "options"@);
            lemma_obj_entry_decreases(j, "options"@);
            lemma_dec_set_char(oe);
            assert forall|i: int| 0 <= i < oe.len() implies (dec_nix_value(
                (#[trigger] oe[i]).1,
            ) is Some <==> schema_grammar(oe[i].1)) by {
                assert(decreases_to!(oe => oe[i]));
                assert(decreases_to!(oe[i] => oe[i].1));
                lemma_schema_totality(oe[i].1);
            }
        }
    }
}

/// Decoder totality for schema nodes: decoding succeeds exactly on the
/// schema grammar.  Config values need no such law: their decoder is total.
pub proof fn lemma_schema_totality(j: JsonValueView)
    ensures
        dec_nix_value(j) is Some <==> schema_grammar(j),
    decreases j,
{
    if let JsonValueView::Obj(s) = j {
        lemma_find_index(s, "type"@);
        if find_index(s, "type"@) is Some {
            let i = find_index(s, "type"@)->Some_0;
            assert(decreases_to!(j => s));
            assert(decreases_to!(s => s[i]));
            assert(decreases_to!(s[i] => s[i].1));
            lemma_type_totality(s[i].1);
        }
        lemma_dec_set_char(s);
        assert forall|i: int| 0 <= i < s.len() implies (dec_nix_value(
            (#[trigger] s[i]).1,
        ) is Some <==> schema_grammar(s[i].1)) by {
            assert(decreases_to!(j => s));
            assert(decreases_to!(s => s[i]));
            assert(decreases_to!(s[i] => s[i].1));
            lemma_schema_totality(s[i].1);
        }
    }
}

/// The index of the first entry of `entries` keyed by `key`.
fn find_key(entries: &Vec<(String, JsonValue)>, key: &str) -> (r: Option<usize>)
    ensures
        match r {
            Some(i) => i < entries.len() && find_index(json_entries_view(entries@), key@) == Some(
                i as int,
            ),
            None => find_index(json_entries_view(entries@), key@) is None,
        },
{
    let ghost s = json_entries_view(entries@);
    proof {
        lemma_json_entries_view(entries@);
    }
    let mut i: usize = 0;
    while i < entries.len()
        invariant
            i <= entries.len(),
            s == json_entries_view(entries@),
            s.len() == entries@.len(),
            forall|j: int| 0 <= j < s.len() ==> (#[trigger] s[j]).0 == entries@[j].0@,
            forall|j: int| 0 <= j < i ==> (#[trigger] s[j]).0 != key@,
        decreases entries@.len() - i,
    {
        if crate::text::string_eq_str(&entries[i].0, key) {
            proof {
                lemma_find_index_witness(s, key@, i as int);
            }
            return Some(i);
        }
        i = i + 1;
    }
    proof {
        lemma_find_index(s, key@);
    }
    None
}

/// The named entry exists and is a boolean.
fn obj_entry_is_bool(entries: &Vec<(String, JsonValue)>, key: &str) -> (r: bool)
    ensures
        r == entry_is_bool(json_entries_view(entries@), key@),
{
    let ghost s = json_entries_view(entries@);
    proof {
        lemma_json_entries_view(entries@);
    }
    match find_key(entries, key) {
        Some(i) => match &entries[i].1 {
            JsonValue::Bool(_) => true,
            _ => false,
        },
        None => false,
    }
}

/// The named entry exists and is a string.
fn obj_entry_is_str(entries: &Vec<(String, JsonValue)>, key: &str) -> (r: bool)
    ensures
        r == entry_is_str(json_entries_view(entries@), key@),
{
    let ghost s = json_entries_view(entries@);
    proof {
        lemma_json_entries_view(entries@);
    }
    match find_key(entries, key) {
        Some(i) => match &entries[i].1 {
            JsonValue::Str(_) => true,
            _ => false,
        },
        None => false,
    }
}

/// Moves the named string entry out of `entries`.
fn take_str(entries: Vec<(String, JsonValue)>, key: &str) -> (r: String)
    requires
        entry_is_str(json_entries_view(entries@), key@),
    ensures
        r@ == str_entry(json_entries_view(entries@), key@),
{
    let ghost s = json_entries_view(entries@);
    proof {
        lemma_json_entries_view(entries@);
    }
    let mut entries = entries;
    let i: usize = match find_key(&entries, key) {
        Some(i) => i,
        None => {
            proof {
                assert(false);
            }
            0
        },
    };
    let pair = entries.remove(i);
    match pair.1 {
        JsonValue::Str(t) => t,
        _ => {
            proof {
                assert(false);
            }
            String::new()
        },
    }
}

/// A copy of the named string entry.
fn clone_str_entry(entries: &Vec<(String, JsonValue)>, key: &str) -> (r: String)
    requires
        entry_is_str(json_entries_view(entries@), key@),
    ensures
        r@ == str_entry(json_entries_view(entries@), key@),
{
    proof {
        lemma_json_entries_view(entries@);
    }
    match find_key(entries, key) {
        Some(i) => match &entries[i].1 {
            JsonValue::Str(s) => s.clone(),
            _ => {
                proof {
                    assert(false);
                }
                String::new()
            },
        },
        None => {
            proof {
                assert(false);
            }
            String::new()
        },
    }
}

/// A copy of the named entry's value.
fn clone_entry(entries: &Vec<(String, JsonValue)>, key: &str) -> (r: Option<JsonValue>)
    ensures
        match r {
            Some(v) => find_entry(json_entries_view(entries@), key@) == Some(v@),
            None => find_entry(json_entries_view(entries@), key@) is None,
        },
{
    proof {
        lemma_json_entries_view(entries@);
    }
    match find_key(entries, key) {
        Some(i) => Some(entries[i].1.deep_clone()),
        None => None,
    }
}

pub open spec fn opt_json_view(o: Option<JsonValue>) -> Option<JsonValueView> {
    match o {
        Some(v) => Some(json_view(v)),
        None => None,
    }
}

pub open spec fn opt_guarded_view(o: Option<NixGuardedValue>) -> Option<GuardedValueView> {
    match o {
        Some(v) => Some(guarded_view(v)),
        None => None,
    }
}

/// Decodes an optional documentation value: a missing or null entry is no
/// value at all.
fn decode_opt_guarded(o: Option<JsonValue>) -> (r: Option<NixGuardedValue>)
    ensures
        opt_guarded_view(r) == dec_opt_guarded(opt_json_view(o)),
{
    match o {
        None => None,
        Some(JsonValue::Null) => None,
        Some(v) => Some(decode_guarded(v)),
    }
}

/// Decodes a raw type value, trying the named type shape, then the inline
/// submodule shape, then the infinite recursion sentinel.  `None` where no
/// shape matches.
pub fn decode_type_value(j: &JsonValue) -> (r: Option<NixTypeValue>)
    ensures
        match r {
            Some(t) => dec_type_value(j@) == Some(t@),
            None => dec_type_value(j@) is None,
        },
    decreases j@, 1int,
{
    let entries = match j {
        JsonValue::Obj(e) => e,
        _ => {
            return None;
        },
    };
    let ghost s = json_entries_view(entries@);
    proof {
        lemma_json_entries_view(entries@);
    }
    if obj_entry_is_bool(entries, "_type") && obj_entry_is_str(entries, "description")
        && obj_entry_is_str(entries, "functorName") && obj_entry_is_str(entries, "name") {
        if let Some(i) = find_key(entries, "nestedTypes") {
            if let JsonValue::Obj(ne) = &entries[i].1 {
                proof {
                    assert(find_entry(s, "nestedTypes"@) == Some(s[i as int].1));
                    assert(obj_entry(s, "nestedTypes"@) == json_entries_view(ne@));
                    lemma_obj_entry_decreases(j@, "nestedTypes"@);
                }
                if let Some(nested) = decode_type_entries(ne) {
                    let description = clone_str_entry(entries, "description");
                    let name = clone_str_entry(entries, "name");
                    return Some(
                        NixTypeValue::Type(NixType { description, name, nested_types: nested }),
                    );
                }
            }
        }
    }
    if obj_entry_is_bool(entries, "_submodule") {
        if let Some(i) = find_key(entries, "options") {
            if let JsonValue::Obj(oe) = &entries[i].1 {
                proof {
                    assert(find_entry(s, "options"@) == Some(s[i as int].1));
                    assert(obj_entry(s, "options"@) == json_entries_view(oe@));
                    lemma_obj_entry_decreases(j@, "options"@);
                }
                if let Some(options) = decode_set(oe) {
                    return Some(NixTypeValue::Submodule(NixSubmodule { options }));
                }
            }
        }
    }
    if obj_entry_is_bool(entries, "_infiniteRecursion") {
        return Some(NixTypeValue::InfiniteRecursion(NixInfiniteRecursion {  }));
    }
    None
}

/// Decodes an object of raw type values; `None` where any entry fails.
fn decode_type_entries(entries: &Vec<(String, JsonValue)>) -> (r: Option<
    Vec<(String, NixTypeValue)>,
>)
    ensures
        match r {
            Some(v) => dec_type_entries(json_entries_view(entries@)) == Some(
                type_entries_view(v@),
            ),
            None => dec_type_entries(json_entries_view(entries@)) is None,
        },
    decreases json_entries_view(entries@), 2int,
{
    let ghost s = json_entries_view(entries@);
    proof {
        lemma_json_entries_view(entries@);
        lemma_dec_type_entries_char(s);
    }
    let mut out: Vec<(String, NixTypeValue)> = Vec::new();
    let mut i: usize = 0;
    while i < entries.len()
        invariant
            i <= entries@.len(),
            out@.len() == i,
            s == json_entries_view(entries@),
            s.len() == entries@.len(),
            forall|k: int| 0 <= k < s.len() ==> #[trigger] s[k] == (entries@[k].0@, json_view(
                entries@[k].1,
            )),
            forall|k: int| 0 <= k < i ==> dec_type_value((#[trigger] s[k]).1) is Some,
            forall|k: int|
                0 <= k < i ==> (#[trigger] out@[k]).0@ == s[k].0 && type_value_view(out@[k].1)
                    == dec_type_value(s[k].1)->Some_0,
        decreases entries@.len() - i,
    {
        proof {
            assert(decreases_to!(s => s[i as int]));
            assert(decreases_to!(s[i as int] => s[i as int].1));
        }
        match decode_type_value(&entries[i].1) {
            Some(t) => {
                let k = entries[i].0.clone();
                out.push((k, t));
            },
            None => {
                proof {
                    lemma_dec_type_entries_char(s);
                }
                return None;
            },
        }
        i = i + 1;
    }
    proof {
        lemma_dec_type_entries_char(s);
        lemma_type_entries_view(out@);
        let r = dec_type_entries(s)->Some_0;
        assert forall|k: int| 0 <= k < s.len() implies type_entries_view(out@)[k] == r[k] by {
            assert(r[k] == (s[k].0, dec_type_value(s[k].1)->Some_0));
            assert(type_entries_view(out@)[k] == ((out@[k]).0@, type_value_view(out@[k].1)));
        }
        assert(type_entries_view(out@) =~= r);
    }
    Some(out)
}

/// Decodes a schema node, trying the option leaf shape first, then a set of
/// named children.  `None` where neither matches.
pub fn decode_nix_value(j: &JsonValue) -> (r: Option<NixValue>)
    ensures
        match r {
            Some(v) => dec_nix_value(j@) == Some(v@),
            None => dec_nix_value(j@) is None,
        },
    decreases j@, 1int,
{
    let entries = match j {
        JsonValue::Obj(e) => e,
        _ => {
            return None;
        },
    };
    let ghost s = json_entries_view(entries@);
    proof {
        lemma_json_entries_view(entries@);
    }
    if obj_entry_is_bool(entries, "_option") && obj_entry_is_str(entries, "description") {
        if let Some(i) = find_key(entries, "type") {
            proof {
                assert(find_entry(s, "type"@) == Some(s[i as int].1));
                assert(decreases_to!(j@ => s));
                assert(decreases_to!(s => s[i as int]));
                assert(decreases_to!(s[i as int] => s[i as int].1));
            }
            if let Some(type_value) = decode_type_value(&entries[i].1) {
                let description = clone_str_entry(entries, "description");
                let default = decode_opt_guarded(clone_entry(entries, "default"));
                let example = decode_opt_guarded(clone_entry(entries, "example"));
                return Some(
                    NixValue::Option(NixOption { description, type_value, default, example }),
                );
            }
        }
    }
    proof {
        assert(decreases_to!(j@ => s));
    }
    match decode_set(entries) {
        Some(g) => Some(NixValue::Group(g)),
        None => None,
    }
}

/// Decodes a set of schema nodes; `None` where any entry fails.
fn decode_set(entries: &Vec<(String, JsonValue)>) -> (r: Option<Vec<(String, NixValue)>>)
    ensures
        match r {
            Some(v) => dec_set(json_entries_view(entries@)) == Some(set_view(v@)),
            None => dec_set(json_entries_view(entries@)) is None,
        },
    decreases json_entries_view(entries@), 2int,
{
    let ghost s = json_entries_view(entries@);
    proof {
        lemma_json_entries_view(entries@);
        lemma_dec_set_char(s);
    }
    let mut out: Vec<(String, NixValue)> = Vec::new();
    let mut i: usize = 0;
    while i < entries.len()
        invariant
            i <= entries@.len(),
            out@.len() == i,
            s == json_entries_view(entries@),
            s.len() == entries@.len(),
            forall|k: int| 0 <= k < s.len() ==> #[trigger] s[k] == (entries@[k].0@, json_view(
                entries@[k].1,
            )),
            forall|k: int| 0 <= k < i ==> dec_nix_value((#[trigger] s[k]).1) is Some,
            forall|k: int|
                0 <= k < i ==> (#[trigger] out@[k]).0@ == s[k].0 && nix_value_view(out@[k].1)
                    == dec_nix_value(s[k].1)->Some_0,
        decreases entries@.len() - i,
    {
        proof {
            assert(decreases_to!(s => s[i as int]));
            assert(decreases_to!(s[i as int] => s[i as int].1));
        }
        match decode_nix_value(&entries[i].1) {
            Some(v) => {
                let k = entries[i].0.clone();
                out.push((k, v));
            },
            None => {
                proof {
                    lemma_dec_set_char(s);
                }
                return None;
            },
        }
        i = i + 1;
    }
    proof {
        lemma_dec_set_char(s);
        lemma_set_view(out@);
        let r = dec_set(s)->Some_0;
        assert forall|k: int| 0 <= k < s.len() implies set_view(out@)[k] == r[k] by {
            assert(r[k] == (s[k].0, dec_nix_value(s[k].1)->Some_0));
            assert(set_view(out@)[k] == ((out@[k]).0@, nix_value_view(out@[k].1)));
        }
        assert(set_view(out@) =~= r);
    }
    Some(out)
}

/// Decodes a raw JSON value into a config value.  Never fails: unrecognised
/// shapes fall back to the generic object, array and scalar forms.
pub fn decode_guarded(j: JsonValue) -> (r: NixGuardedValue)
    ensures
        r@ == dec_guarded(j@),
    decreases j,
{
    match j {
        JsonValue::Null => NixGuardedValue::Null,
        JsonValue::Bool(b) => NixGuardedValue::Bool(b),
        JsonValue::Int(i) => NixGuardedValue::Number(i),
        JsonValue::Num(s) => NixGuardedValue::Float(s),
        JsonValue::Str(s) => NixGuardedValue::String(s),
        JsonValue::Arr(items) => NixGuardedValue::List(decode_guarded_list(items)),
        JsonValue::Obj(entries) => {
            if obj_entry_is_bool(&entries, "_derivation") && obj_entry_is_str(&entries, "name") {
                let name = take_str(entries, "name");
                NixGuardedValue::Derivation(NixDerivation { name })
            } else if obj_entry_is_bool(&entries, "_function") {
                NixGuardedValue::Function(NixFunction {  })
            } else if obj_entry_is_bool(&entries, "_error") {
                NixGuardedValue::Error(NixTryEvalError {  })
            } else if obj_entry_is_str(&entries, "_type") && obj_entry_is_str(&entries, "text") {
                let text = take_str(entries, "text");
                NixGuardedValue::LiteralExpression(NixLiteralExpression { text })
            } else if obj_entry_is_bool(&entries, "_type") {
                NixGuardedValue::OptionType(NixGuardedOptionType {  })
            } else {
                NixGuardedValue::Attrs(decode_guarded_entries(entries))
            }
        },
    }
}

fn decode_guarded_list(items: Vec<JsonValue>) -> (r: Vec<NixGuardedValue>)
    ensures
        guarded_seq_view(r@) == dec_guarded_seq(json_seq_view(items@)),
    decreases items@,
{
    let ghost orig = items@;
    let mut items = items;
    if items.len() == 0 {
        Vec::new()
    } else {
        let v = items.remove(0);
        let d = decode_guarded(v);
        let mut rest = decode_guarded_list(items);
        let ghost rest0 = rest@;
        rest.insert(0, d);
        proof {
            let s = json_seq_view(orig);
            lemma_json_seq_view(orig);
            lemma_json_seq_view(items@);
            lemma_dec_guarded_seq(s);
            lemma_dec_guarded_seq(json_seq_view(items@));
            lemma_guarded_seq_view(rest@);
            lemma_guarded_seq_view(rest0);
            assert(items@ =~= orig.drop_first());
            assert(rest@ =~= seq![d] + rest0);
            assert forall|i: int| 0 <= i < rest@.len() implies guarded_seq_view(rest@)[i]
                == dec_guarded_seq(s)[i] by {
                if i > 0 {
                    assert(rest@[i] == rest0[i - 1]);
                    assert(items@[i - 1] == orig[i]);
                }
            }
            assert(guarded_seq_view(rest@) =~= dec_guarded_seq(s));
        }
        rest
    }
}

fn decode_guarded_entries(entries: Vec<(String, JsonValue)>) -> (r: Vec<(String, NixGuardedValue)>)
    ensures
        guarded_entries_view(r@) == dec_guarded_entries(json_entries_view(entries@)),
    decreases entries@,
{
    let ghost orig = entries@;
    let mut entries = entries;
    if entries.len() == 0 {
        Vec::new()
    } else {
        let pair = entries.remove(0);
        let d = decode_guarded(pair.1);
        let mut rest = decode_guarded_entries(entries);
        let ghost rest0 = rest@;
        let ghost p = (pair.0, d);
        rest.insert(0, (pair.0, d));
        proof {
            let s = json_entries_view(orig);
            lemma_json_entries_view(orig);
            lemma_json_entries_view(entries@);
            lemma_dec_guarded_entries(s);
            lemma_dec_guarded_entries(json_entries_view(entries@));
            lemma_guarded_entries_view(rest@);
            lemma_guarded_entries_view(rest0);
            assert(entries@ =~= orig.drop_first());
            assert(rest@ =~= seq![p] + rest0);
            assert forall|i: int| 0 <= i < rest@.len() implies guarded_entries_view(rest@)[i]
                == dec_guarded_entries(s)[i] by {
                if i > 0 {
                    assert(rest@[i] == rest0[i - 1]);
                    assert(entries@[i - 1] == orig[i]);
                }
            }
            assert(guarded_entries_view(rest@) =~= dec_guarded_entries(s));
        }
        rest
    }
}

} // verus!
