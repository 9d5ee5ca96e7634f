//! Loading the two documents.
//!
//! The schema and the config are produced externally (a `nix-instantiate`
//! call, possibly served from an on-disk cache) and handed to the library as
//! raw bytes.  `get_options` and `get_config` parse and decode those bytes;
//! everything past the raw JSON parse is verified.

use vstd::prelude::*;

use crate::json::JsonValue;
use crate::json::JsonValueView;
use crate::json::json_seq_view;
use crate::json::lemma_json_seq_view;
use crate::json::parse_json;
use crate::json::parsed_json;
use crate::parse::NixGuardedValue;
use crate::parse::NixValue;
use crate::parse::dec_guarded;
use crate::parse::dec_nix_value;
use crate::parse::decode_guarded;
use crate::parse::decode_nix_value;

verus! {

#[verifier::external_type_specification]
#[verifier::external_body]
pub struct ExIoError(std::io::Error);

/// Why loading a document failed.
#[derive(Debug)]
pub enum LoadJsonError {
    /// The producing command could not be run at all.
    FailedCommand(std::io::Error),
    /// The bytes do not parse as JSON.
    ParseRelated(serde_json::Error),
    /// The producing command exited with an error, whose output is kept.
    FailedEval(String),
    /// The document parses as JSON but does not follow the schema grammar.
    UnexpectedShape,
}

/// Decodes a raw schema document into its root node.  Returns `Ok` exactly
/// when the bytes parse as JSON and the document follows the schema grammar;
/// malformed JSON is a parse error, and a well-formed document of the wrong
/// shape is an unexpected shape.
pub fn get_options(schema_json: &[u8]) -> (r: Result<NixValue, LoadJsonError>)
    ensures
        match r {
            Ok(v) => parsed_json(schema_json@) matches Some(jv) && dec_nix_value(jv) == Some(v@),
            Err(LoadJsonError::ParseRelated(_)) => parsed_json(schema_json@) is None,
            Err(LoadJsonError::UnexpectedShape) => parsed_json(schema_json@) matches Some(jv)
                && dec_nix_value(jv) is None,
            Err(_) => false,
        },
{
    match parse_json(schema_json) {
        Err(e) => Err(LoadJsonError::ParseRelated(e)),
        Ok(j) => match decode_nix_value(&j) {
            Some(v) => Ok(v),
            None => Err(LoadJsonError::UnexpectedShape),
        },
    }
}

/// Decodes a raw config document.  Returns `Ok` exactly when the bytes parse
/// as JSON: config decoding itself is total.
pub fn get_config(config_json: &[u8]) -> (r: Result<NixGuardedValue, LoadJsonError>)
    ensures
        match r {
            Ok(v) => parsed_json(config_json@) matches Some(jv) && v@ == dec_guarded(jv),
            Err(LoadJsonError::ParseRelated(_)) => parsed_json(config_json@) is None,
            Err(_) => false,
        },
{
    match parse_json(config_json) {
        Err(e) => Err(LoadJsonError::ParseRelated(e)),
        Ok(j) => Ok(decode_guarded(j)),
    }
}

/// A JSON array of strings, as their character sequences.
pub open spec fn dec_string_list(j: JsonValueView) -> Option<Seq<Seq<char>>> {
    match j {
        JsonValueView::Arr(items) => {
            if forall|i: int| 0 <= i < items.len() ==> (#[trigger] items[i]) is Str {
                Some(Seq::new(items.len(), |i: int| items[i]->Str_0))
            } else {
                None
            }
        },
        _ => None,
    }
}

pub open spec fn strings_view(s: Seq<String>) -> Seq<Seq<char>> {
    Seq::new(s.len(), |i: int| s[i]@)
}

/// Decodes the list of configuration names that the flake offers.  Returns
/// `Some` exactly when the bytes parse as a JSON array of strings.
pub fn parse_nixos_configurations(json: &[u8]) -> (r: Option<Vec<String>>)
    ensures
        match r {
            Some(v) => parsed_json(json@) matches Some(jv) && dec_string_list(jv) == Some(
                strings_view(v@),
            ),
            None => parsed_json(json@) is None || (parsed_json(json@) matches Some(jv)
                && dec_string_list(jv) is None),
        },
{
    let j = match parse_json(json) {
        Err(_) => {
            return None;
        },
        Ok(j) => j,
    };
    match &j {
        JsonValue::Arr(items) => {
            let ghost sv = json_seq_view(items@);
            proof {
                lemma_json_seq_view(items@);
            }
            let mut out: Vec<String> = Vec::new();
            let mut i: usize = 0;
            while i < items.len()
                invariant
                    i <= items@.len(),
                    out@.len() == i,
                    parsed_json(json@) == Some(j@),
                    j@ == JsonValueView::Arr(sv),
                    sv == json_seq_view(items@),
                    sv.len() == items@.len(),
                    forall|k: int| 0 <= k < sv.len() ==> #[trigger] sv[k] == items@[k]@,
                    forall|k: int| 0 <= k < i ==> (#[trigger] sv[k]) is Str,
                    forall|k: int| 0 <= k < i ==> (#[trigger] out@[k])@ == sv[k]->Str_0,
                decreases items@.len() - i,
            {
                match &items[i] {
                    JsonValue::Str(s) => {
                        out.push(s.clone());
                    },
                    _ => {
                        proof {
                            assert(!(items@[i as int] is Str));
                            assert(!((sv[i as int]) is Str));
                        }
                        return None;
                    },
                }
                i = i + 1;
            }
            proof {
                assert(strings_view(out@) =~= dec_string_list(JsonValueView::Arr(sv))->Some_0);
            }
            Some(out)
        },
        _ => None,
    }
}

} // verus!
