//! The effects countdown overlay's entry labels.

use vstd::prelude::*;

use crate::overlay_metrics::{decimal, u32_to_decimal};

verus! {

/// The label of an effect entry: the name, with the stack count in
/// parentheses when there are at least two stacks.
pub open spec fn spec_effect_display_name(name: Seq<char>, stacks: u8) -> Seq<char> {
    if stacks > 1 {
        name + " ("@ + decimal(stacks as nat) + ")"@
    } else {
        name
    }
}

/// Formats an effect entry's display text: the name plus the stack count
/// when it is above one.
pub fn effect_display_name(name: &str, stacks: u8) -> (r: String)
    ensures
        r@ == spec_effect_display_name(name@, stacks),
{
    if stacks > 1 {
        let mut out = crate::text::chars_of(name);
        crate::text::extend_str(&mut out, " (");
        let digits = u32_to_decimal(stacks as u32);
        crate::text::extend_str(&mut out, digits.as_str());
        crate::text::extend_str(&mut out, ")");
        crate::text::string_of(out.as_slice())
    } else {
        name.to_owned()
    }
}

} // verus!
