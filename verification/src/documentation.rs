//! Display text for selected nodes.
//!
//! `DisplayData` holds what the detail pane of a browser shows for a
//! selected node: its documentation and, after the overlay, its value.
//! The render functions turn config values and documentation into plain
//! text; each is specified by a spec function over the mathematical forms.

use vstd::prelude::*;
use vstd::string::StringExecFns;

use crate::node::DocView;
use crate::node::OptionDocumentation;
use crate::node::OptionNode;
use crate::node::doc_of_option;
use crate::node::doc_view;
use crate::node::opt_doc_view;
use crate::node::type_value_label;
use crate::parse::GuardedValueView;
use crate::parse::NixGuardedValue;
use crate::parse::NixOption;
use crate::parse::clone_opt_guarded;
use crate::parse::guarded_entries_view;
use crate::parse::guarded_seq_view;
use crate::parse::lemma_guarded_entries_view;
use crate::parse::lemma_guarded_seq_view;
use crate::parse::nix_option_view;
use crate::parse::opt_guarded_view;
use crate::text::dec_digits;
use crate::text::push_decimal;

verus! {

/// The decimal text of an integer, with a leading minus sign where negative.
pub open spec fn int_text(n: int) -> Seq<char> {
    if n < 0 {
        seq!['-'] + dec_digits((-n) as nat)
    } else {
        dec_digits(n as nat)
    }
}

/// The rendered text of a config value: markers render as fixed
/// placeholders, scalars literally, attribute sets and lists as nested
/// text in braces and brackets.
pub open spec fn guarded_text(v: GuardedValueView) -> Seq<char>
    decreases v, 0int,
{
    match v {
        GuardedValueView::OptionType => "<option type>"@,
        GuardedValueView::Function => "<function>"@,
        GuardedValueView::Derivation(name) => "<build of "@ + name + ">"@,
        GuardedValueView::Error => "<error>"@,
        GuardedValueView::LiteralExpression(text) => "```"@ + text + "```"@,
        GuardedValueView::String(s) => "\""@ + s + "\""@,
        GuardedValueView::Number(n) => int_text(n as int),
        GuardedValueView::Float(s) => s,
        GuardedValueView::Bool(b) => if b {
            "true"@
        } else {
            "false"@
        },
        GuardedValueView::Null => "null"@,
        GuardedValueView::Attrs(entries) => "{"@ + entries_text_from(entries, 0) + "}"@,
        GuardedValueView::List(items) => "["@ + items_text_from(items, 0) + "]"@,
    }
}

/// The rendered entries of an attribute set from index `i` on, separated by
/// commas, each as a quoted key, a colon, and the rendered value.
pub open spec fn entries_text_from(s: Seq<(Seq<char>, GuardedValueView)>, i: nat) -> Seq<char>
    decreases s, s.len() - i,
{
    if i < s.len() {
        "\""@ + s[i as int].0 + "\": "@ + guarded_text(s[i as int].1) + (if i + 1 < s.len() {
            ", "@ + entries_text_from(s, i + 1)
        } else {
            Seq::empty()
        })
    } else {
        Seq::empty()
    }
}

/// The rendered items of a list from index `i` on, separated by commas.
pub open spec fn items_text_from(s: Seq<GuardedValueView>, i: nat) -> Seq<char>
    decreases s, s.len() - i,
{
    if i < s.len() {
        guarded_text(s[i as int]) + (if i + 1 < s.len() {
            ", "@ + items_text_from(s, i + 1)
        } else {
            Seq::empty()
        })
    } else {
        Seq::empty()
    }
}

/// Appends the decimal text of `n`.
fn push_i64(n: i64, out: &mut String)
    ensures
        final(out)@ == old(out)@ + int_text(n as int),
{
    if n < 0 {
        out.append("-");
        let mag: u64 = if n == i64::MIN {
            9223372036854775808u64
        } else {
            (-n) as u64
        };
        push_decimal(mag, out);
        proof {
            reveal_strlit("-");
            assert("-"@ =~= seq!['-']);
            assert(old(out)@ + "-"@ + dec_digits(mag as nat) =~= old(out)@ + int_text(n as int));
        }
    } else {
        push_decimal(n as u64, out);
    }
}

/// Appends the rendered text of a config value.
fn push_guarded(v: &NixGuardedValue, out: &mut String)
    ensures
        final(out)@ == old(out)@ + guarded_text(v@),
    decreases v@, 0int,
{
    match v {
        NixGuardedValue::OptionType(_) => out.append("<option type>"),
        NixGuardedValue::Function(_) => out.append("<function>"),
        NixGuardedValue::Derivation(d) => {
            out.append("<build of ");
            out.append(d.name.as_str());
            out.append(">");
            proof {
                assert(old(out)@ + "<build of "@ + d.name@ + ">"@ =~= old(out)@ + guarded_text(
                    v@,
                ));
            }
        },
        NixGuardedValue::Error(_) => out.append("<error>"),
        NixGuardedValue::LiteralExpression(e) => {
            out.append("```");
            out.append(e.text.as_str());
            out.append("```");
            proof {
                assert(old(out)@ + "```"@ + e.text@ + "```"@ =~= old(out)@ + guarded_text(v@));
            }
        },
        NixGuardedValue::String(s) => {
            out.append("\"");
            out.append(s.as_str());
            out.append("\"");
            proof {
                assert(old(out)@ + "\""@ + s@ + "\""@ =~= old(out)@ + guarded_text(v@));
            }
        },
        NixGuardedValue::Number(n) => push_i64(*n, out),
        NixGuardedValue::Float(s) => out.append(s.as_str()),
        NixGuardedValue::Bool(b) => {
            if *b {
                out.append("true")
            } else {
                out.append("false")
            }
        },
        NixGuardedValue::Null => out.append("null"),
        NixGuardedValue::Attrs(entries) => {
            proof {
                assert(decreases_to!(v@ => v@->Attrs_0));
            }
            out.append("{");
            push_entries(entries, 0, out);
            out.append("}");
            proof {
                assert(old(out)@ + "{"@ + entries_text_from(guarded_entries_view(entries@), 0)
                    + "}"@ =~= old(out)@ + guarded_text(v@));
            }
        },
        NixGuardedValue::List(items) => {
            proof {
                assert(decreases_to!(v@ => v@->List_0));
            }
            out.append("[");
            push_items(items, 0, out);
            out.append("]");
            proof {
                assert(old(out)@ + "["@ + items_text_from(guarded_seq_view(items@), 0) + "]"@
                    =~= old(out)@ + guarded_text(v@));
            }
        },
    }
}

fn push_entries(entries: &Vec<(String, NixGuardedValue)>, i: usize, out: &mut String)
    ensures
        final(out)@ == old(out)@ + entries_text_from(
            guarded_entries_view(entries@),
            i as nat,
        ),
    decreases guarded_entries_view(entries@), entries@.len() - i,
{
    let ghost ev = guarded_entries_view(entries@);
    proof {
        lemma_guarded_entries_view(entries@);
    }
    if i < entries.len() {
        out.append("\"");
        out.append(entries[i].0.as_str());
        out.append("\": ");
        proof {
            assert(decreases_to!(ev => ev[i as int]));
            assert(decreases_to!(ev[i as int] => ev[i as int].1));
        }
        push_guarded(&entries[i].1, out);
        if i + 1 < entries.len() {
            out.append(", ");
            push_entries(entries, i + 1, out);
            proof {
                assert(old(out)@ + "\""@ + ev[i as int].0 + "\": "@ + guarded_text(
                    ev[i as int].1,
                ) + ", "@ + entries_text_from(ev, i as nat + 1) =~= old(out)@
                    + entries_text_from(ev, i as nat));
            }
        } else {
            proof {
                assert(old(out)@ + "\""@ + ev[i as int].0 + "\": "@ + guarded_text(
                    ev[i as int].1,
                ) =~= old(out)@ + entries_text_from(ev, i as nat));
            }
        }
    }
}

fn push_items(items: &Vec<NixGuardedValue>, i: usize, out: &mut String)
    ensures
        final(out)@ == old(out)@ + items_text_from(guarded_seq_view(items@), i as nat),
    decreases guarded_seq_view(items@), items@.len() - i,
{
    let ghost iv = guarded_seq_view(items@);
    proof {
        lemma_guarded_seq_view(items@);
    }
    if i < items.len() {
        proof {
            assert(decreases_to!(iv => iv[i as int]));
        }
        push_guarded(&items[i], out);
        if i + 1 < items.len() {
            out.append(", ");
            push_items(items, i + 1, out);
            proof {
                assert(old(out)@ + guarded_text(iv[i as int]) + ", "@ + items_text_from(
                    iv,
                    i as nat + 1,
                ) =~= old(out)@ + items_text_from(iv, i as nat));
            }
        } else {
            proof {
                assert(old(out)@ + guarded_text(iv[i as int]) =~= old(out)@ + items_text_from(
                    iv,
                    i as nat,
                ));
            }
        }
    }
}

impl NixGuardedValue {
    /// The rendered text of this config value.
    pub fn display_text(&self) -> (r: String)
        ensures
            r@ == guarded_text(self@),
    {
        let mut out = String::new();
        push_guarded(self, &mut out);
        proof {
            assert(Seq::<char>::empty() + guarded_text(self@) =~= guarded_text(self@));
        }
        out
    }
}

/// The rendered text of an option's documentation: the description and
/// type, then the default and the example where present.
pub open spec fn doc_text(d: DocView) -> Seq<char> {
    "Description: "@ + d.description + "\n\nType: "@ + d.type_label + (match d.default {
        Some(v) => "\n\nDefault: "@ + guarded_text(v),
        None => Seq::empty(),
    }) + (match d.example {
        Some(v) => "\n\nExample: "@ + guarded_text(v),
        None => Seq::empty(),
    })
}

impl OptionDocumentation {
    /// The documentation drawn from an option leaf of the schema.
    pub fn of_option(opt: &NixOption) -> (r: Self)
        ensures
            doc_view(r) == doc_of_option(nix_option_view(*opt)),
    {
        OptionDocumentation {
            description: opt.description.clone(),
            type_label: type_value_label(&opt.type_value),
            default: clone_opt_guarded(&opt.default),
            example: clone_opt_guarded(&opt.example),
        }
    }

    /// The rendered text of this documentation.
    pub fn display_text(&self) -> (r: String)
        ensures
            r@ == doc_text(doc_view(*self)),
    {
        let mut out = String::new();
        out.append("Description: ");
        out.append(self.description.as_str());
        out.append("\n\nType: ");
        out.append(self.type_label.as_str());
        if let Some(v) = &self.default {
            out.append("\n\nDefault: ");
            push_guarded(v, &mut out);
        }
        if let Some(v) = &self.example {
            out.append("\n\nExample: ");
            push_guarded(v, &mut out);
        }
        proof {
            assert(out@ =~= doc_text(doc_view(*self)));
        }
        out
    }
}

/// What the detail pane shows for a selected node: its documentation and,
/// after the overlay, its value.
#[derive(Debug)]
pub struct DisplayData {
    pub documentation: Option<OptionDocumentation>,
    pub value: Option<NixGuardedValue>,
}

/// The rendered text of the detail pane: nothing without documentation, the
/// value above the documentation where both are present.
pub open spec fn display_text_m(
    doc: Option<DocView>,
    value: Option<GuardedValueView>,
) -> Seq<char> {
    match (doc, value) {
        (None, _) => "No documentation available."@,
        (Some(d), Some(v)) => "Value: "@ + guarded_text(v) + "\n\n\n"@ + doc_text(d),
        (Some(d), None) => doc_text(d),
    }
}

impl DisplayData {
    /// An empty pane.
    pub fn new() -> (r: Self)
        ensures
            r.documentation is None,
            r.value is None,
    {
        DisplayData { documentation: None, value: None }
    }

    /// A pane for the given documentation and value.
    pub fn new_with(
        documentation: Option<OptionDocumentation>,
        value: Option<NixGuardedValue>,
    ) -> (r: Self)
        ensures
            r.documentation == documentation,
            r.value == value,
    {
        DisplayData { documentation, value }
    }

    /// The rendered text of the pane.
    pub fn display_text(&self) -> (r: String)
        ensures
            r@ == display_text_m(opt_doc_view(self.documentation), opt_guarded_view(self.value)),
    {
        match (&self.documentation, &self.value) {
            (None, _) => "No documentation available.".to_owned(),
            (Some(d), Some(v)) => {
                let mut out = String::new();
                out.append("Value: ");
                push_guarded(v, &mut out);
                out.append("\n\n\n");
                let dt = d.display_text();
                out.append(dt.as_str());
                proof {
                    assert(out@ =~= display_text_m(
                        opt_doc_view(self.documentation),
                        opt_guarded_view(self.value),
                    ));
                }
                out
            },
            (Some(d), None) => d.display_text(),
        }
    }
}

impl OptionNode {
    /// The detail pane contents for this node.
    pub fn focused_display_data(&self) -> (r: DisplayData)
        ensures
            opt_doc_view(r.documentation) == self@.documentation,
            opt_guarded_view(r.value) == self@.value,
    {
        let documentation = match &self.documentation {
            Some(d) => Some(d.deep_clone()),
            None => None,
        };
        let value = clone_opt_guarded(&self.value);
        DisplayData::new_with(documentation, value)
    }
}

} // verus!
