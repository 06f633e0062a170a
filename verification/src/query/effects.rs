//! SQL fragments of the effect uptime queries.

use vstd::prelude::*;

use crate::query::{sql_escape, sql_escaped};
use crate::text::{chars_eq, chars_of, extend_str, string_of};

verus! {

/// The view of an optional string slice.
pub open spec fn opt_str_view(o: Option<&str>) -> Option<Seq<char>> {
    match o {
        Some(s) => Some(s@),
        None => None,
    }
}

/// The source-filter clause: `self` keeps what the inspected target applied
/// to itself, `other_players` what players and companions other than the
/// target applied, `npcs` what NPCs applied; anything else filters nothing.
pub open spec fn spec_source_filter_clause(source_filter: Option<Seq<char>>, target_name: Option<Seq<char>>) -> Seq<char> {
    if source_filter == Some("self"@) {
        match target_name {
            Some(n) => "AND source_name = '"@ + sql_escaped(n) + "'"@,
            None => Seq::empty(),
        }
    } else if source_filter == Some("other_players"@) {
        match target_name {
            Some(n) => "AND source_entity_type IN ('Player', 'Companion') AND source_name != '"@
                + sql_escaped(n) + "'"@,
            None => "AND source_entity_type IN ('Player', 'Companion')"@,
        }
    } else if source_filter == Some("npcs"@) {
        "AND source_entity_type = 'Npc'"@
    } else {
        Seq::empty()
    }
}

fn str_is(s: &str, lit: &str) -> (r: bool)
    ensures
        r == (s@ == lit@),
{
    let a = chars_of(s);
    let b = chars_of(lit);
    chars_eq(&a, &b)
}

/// Builds the `AND ...` clause that restricts an effect query by who applied
/// the effect; the empty string when nothing is filtered.
pub fn source_filter_clause(source_filter: Option<&str>, target_name: Option<&str>) -> (r: String)
    ensures
        r@ == spec_source_filter_clause(opt_str_view(source_filter), opt_str_view(target_name)),
{
    let mut out: Vec<char> = Vec::new();
    match source_filter {
        Some(f) => {
            if str_is(f, "self") {
                if let Some(name) = target_name {
                    extend_str(&mut out, "AND source_name = '");
                    let escaped = sql_escape(name);
                    extend_str(&mut out, escaped.as_str());
                    extend_str(&mut out, "'");
                }
            } else if str_is(f, "other_players") {
                match target_name {
                    Some(name) => {
                        extend_str(
                            &mut out,
                            "AND source_entity_type IN ('Player', 'Companion') AND source_name != '",
                        );
                        let escaped = sql_escape(name);
                        extend_str(&mut out, escaped.as_str());
                        extend_str(&mut out, "'");
                    },
                    None => {
                        extend_str(&mut out, "AND source_entity_type IN ('Player', 'Companion')");
                    },
                }
            } else if str_is(f, "npcs") {
                extend_str(&mut out, "AND source_entity_type = 'Npc'");
            }
        },
        None => {},
    }
    string_of(out.as_slice())
}

} // verus!
