//! Keyboard shortcut capture: the hotkey text for a key press, and the
//! capture input's response to clicks, key presses and focus loss.

use vstd::prelude::*;

use crate::text::{chars_eq, chars_of, join_from, join_with, slice, string_of, words_view};

verus! {

/// Whether `s` is a single character of one byte (ASCII).
pub open spec fn is_single_byte(s: Seq<char>) -> bool {
    s.len() == 1 && (s[0] as u32) < 0x80
}

/// Whether `s` starts with `p`.
pub open spec fn starts_with(s: Seq<char>, p: Seq<char>) -> bool {
    s.len() >= p.len() && s.take(p.len() as int) == p
}

/// The function keys that a hotkey may use.
pub open spec fn is_function_key(name: Seq<char>) -> bool {
    ||| name == "F1"@
    ||| name == "F2"@
    ||| name == "F3"@
    ||| name == "F4"@
    ||| name == "F5"@
    ||| name == "F6"@
    ||| name == "F7"@
    ||| name == "F8"@
    ||| name == "F9"@
    ||| name == "F10"@
    ||| name == "F11"@
    ||| name == "F12"@
}

/// The hotkey token of the navigation and punctuation keys.
pub open spec fn named_key_token(name: Seq<char>) -> Option<Seq<char>> {
    if name == "ArrowUp"@ {
        Some("Up"@)
    } else if name == "ArrowDown"@ {
        Some("Down"@)
    } else if name == "ArrowLeft"@ {
        Some("Left"@)
    } else if name == "ArrowRight"@ {
        Some("Right"@)
    } else if name == "Home"@ {
        Some("Home"@)
    } else if name == "End"@ {
        Some("End"@)
    } else if name == "PageUp"@ {
        Some("PageUp"@)
    } else if name == "PageDown"@ {
        Some("PageDown"@)
    } else if name == "Insert"@ {
        Some("Insert"@)
    } else if name == "Tab"@ {
        Some("Tab"@)
    } else if name == "Enter"@ {
        Some("Enter"@)
    } else if name == "Minus"@ {
        Some("-"@)
    } else if name == "Equal"@ {
        Some("="@)
    } else if name == "Comma"@ {
        Some(","@)
    } else if name == "Period"@ {
        Some("."@)
    } else if name == "Slash"@ {
        Some("/"@)
    } else if name == "Backslash"@ {
        Some("\\"@)
    } else if name == "Semicolon"@ {
        Some(";"@)
    } else if name == "Quote"@ {
        Some("'"@)
    } else if name == "BracketLeft"@ {
        Some("["@)
    } else if name == "BracketRight"@ {
        Some("]"@)
    } else if name == "Backquote"@ {
        Some("`"@)
    } else {
        None
    }
}

/// The hotkey token for the physical key whose code is named `name`: the
/// letter of `Key?`, the digit of `Digit?`, the whole name of a numpad digit
/// or of `F1`..`F12`, a short name for navigation and punctuation keys, and
/// none for any other key.
pub open spec fn spec_code_to_string(name: Seq<char>) -> Option<Seq<char>> {
    if starts_with(name, "Key"@) && is_single_byte(name.skip("Key"@.len() as int)) {
        Some(name.skip("Key"@.len() as int))
    } else if starts_with(name, "Digit"@) && is_single_byte(name.skip("Digit"@.len() as int)) {
        Some(name.skip("Digit"@.len() as int))
    } else if starts_with(name, "Numpad"@) && name.skip("Numpad"@.len() as int).len() == 1 && '0'
        <= name.skip("Numpad"@.len() as int)[0] <= '9' {
        Some(name)
    } else if is_function_key(name) {
        Some(name)
    } else {
        named_key_token(name)
    }
}

fn str_is(s: &Vec<char>, lit: &str) -> (r: bool)
    ensures
        r == (s@ == lit@),
{
    let b = chars_of(lit);
    chars_eq(s, &b)
}

fn owned(s: &str) -> (r: String)
    ensures
        r@ == s@,
{
    s.to_owned()
}

/// The rest of `v` after the prefix `p`, if `v` starts with it.
fn strip_prefix(v: &Vec<char>, p: &str) -> (r: Option<Vec<char>>)
    ensures
        r matches Some(rest) ==> starts_with(v@, p@) && rest@ == v@.skip(p@.len() as int),
        r is None ==> !starts_with(v@, p@),
{
    let pv = chars_of(p);
    if pv.len() > v.len() {
        return None;
    }
    let head = slice(v, 0, pv.len());
    if chars_eq(&head, &pv) {
        assert(v@.take(p@.len() as int) =~= head@);
        let rest = slice(v, pv.len(), v.len());
        assert(rest@ =~= v@.skip(p@.len() as int));
        Some(rest)
    } else {
        assert(v@.take(p@.len() as int) =~= head@);
        None
    }
}

fn named_key(name: &Vec<char>) -> (r: Option<String>)
    ensures
        match r {
            Some(s) => named_key_token(name@) == Some(s@),
            None => named_key_token(name@) is None,
        },
{
    if str_is(name, "ArrowUp") {
        Some(owned("Up"))
    } else if str_is(name, "ArrowDown") {
        Some(owned("Down"))
    } else if str_is(name, "ArrowLeft") {
        Some(owned("Left"))
    } else if str_is(name, "ArrowRight") {
        Some(owned("Right"))
    } else if str_is(name, "Home") {
        Some(owned("Home"))
    } else if str_is(name, "End") {
        Some(owned("End"))
    } else if str_is(name, "PageUp") {
        Some(owned("PageUp"))
    } else if str_is(name, "PageDown") {
        Some(owned("PageDown"))
    } else if str_is(name, "Insert") {
        Some(owned("Insert"))
    } else if str_is(name, "Tab") {
        Some(owned("Tab"))
    } else if str_is(name, "Enter") {
        Some(owned("Enter"))
    } else if str_is(name, "Minus") {
        Some(owned("-"))
    } else if str_is(name, "Equal") {
        Some(owned("="))
    } else if str_is(name, "Comma") {
        Some(owned(","))
    } else if str_is(name, "Period") {
        Some(owned("."))
    } else if str_is(name, "Slash") {
        Some(owned("/"))
    } else if str_is(name, "Backslash") {
        Some(owned("\\"))
    } else if str_is(name, "Semicolon") {
        Some(owned(";"))
    } else if str_is(name, "Quote") {
        Some(owned("'"))
    } else if str_is(name, "BracketLeft") {
        Some(owned("["))
    } else if str_is(name, "BracketRight") {
        Some(owned("]"))
    } else if str_is(name, "Backquote") {
        Some(owned("`"))
    } else {
        None
    }
}

fn is_function_key_name(name: &Vec<char>) -> (r: bool)
    ensures
        r == is_function_key(name@),
{
    str_is(name, "F1") || str_is(name, "F2") || str_is(name, "F3") || str_is(name, "F4")
        || str_is(name, "F5") || str_is(name, "F6") || str_is(name, "F7") || str_is(name, "F8")
        || str_is(name, "F9") || str_is(name, "F10") || str_is(name, "F11") || str_is(name, "F12")
}

/// Converts a physical key code, given by its name (`KeyA`, `Digit8`,
/// `ArrowUp`, ...), to its hotkey token. The physical code is used rather
/// than the produced character, so Shift+8 gives "8".
pub fn code_to_string(code_name: &str) -> (r: Option<String>)
    ensures
        match r {
            Some(s) => spec_code_to_string(code_name@) == Some(s@),
            None => spec_code_to_string(code_name@) is None,
        },
{
    let name = chars_of(code_name);
    if let Some(rest) = strip_prefix(&name, "Key") {
        if rest.len() == 1 && (rest[0] as u32) < 0x80 {
            return Some(string_of(rest.as_slice()));
        }
    }
    if let Some(rest) = strip_prefix(&name, "Digit") {
        if rest.len() == 1 && (rest[0] as u32) < 0x80 {
            return Some(string_of(rest.as_slice()));
        }
    }
    if let Some(rest) = strip_prefix(&name, "Numpad") {
        if rest.len() == 1 && '0' <= rest[0] && rest[0] <= '9' {
            return Some(code_name.to_owned());
        }
    }
    if is_function_key_name(&name) {
        return Some(code_name.to_owned());
    }
    named_key(&name)
}

/// The views of a list of strings.
pub open spec fn strings_view(v: Seq<String>) -> Seq<Seq<char>> {
    Seq::new(v.len(), |i: int| v[i]@)
}

/// The held modifiers, in the order a hotkey names them.
pub open spec fn spec_modifier_prefix(ctrl: bool, shift: bool, alt: bool) -> Seq<Seq<char>> {
    (if ctrl {
        seq!["Ctrl"@]
    } else {
        Seq::empty()
    }) + (if shift {
        seq!["Shift"@]
    } else {
        Seq::empty()
    }) + (if alt {
        seq!["Alt"@]
    } else {
        Seq::empty()
    })
}

/// The names of the held modifiers: `Ctrl`, `Shift`, `Alt`, in that order.
pub fn build_modifier_prefix(ctrl: bool, shift: bool, alt: bool) -> (r: Vec<String>)
    ensures
        strings_view(r@) == spec_modifier_prefix(ctrl, shift, alt),
{
    let mut parts: Vec<String> = Vec::new();
    if ctrl {
        parts.push(owned("Ctrl"));
    }
    if shift {
        parts.push(owned("Shift"));
    }
    if alt {
        parts.push(owned("Alt"));
    }
    assert(strings_view(parts@) =~= spec_modifier_prefix(ctrl, shift, alt));
    parts
}

/// The key pressed, as far as the capture input tells keys apart.
#[derive(Debug, Clone, Copy, PartialEq, Eq, Structural)]
pub enum HotkeyKey {
    Enter,
    Escape,
    Backspace,
    Delete,
    Control,
    Shift,
    Alt,
    Meta,
    /// Any other key.
    Other,
}

/// The capture input's state: whether it is waiting for a key, and what it
/// shows meanwhile.
#[derive(Debug)]
pub struct HotkeyCapture {
    pub is_capturing: bool,
    pub pending_display: String,
}

/// The response to a key press: the new hotkey to report, if any, and
/// whether the browser's default handling of the key is suppressed.
#[derive(Debug, PartialEq, Eq)]
pub struct KeydownOutcome {
    pub change: Option<String>,
    pub prevent_default: bool,
}

/// The state after a key press and the response to it: (capturing, pending
/// text, reported hotkey, default suppressed).
pub open spec fn spec_keydown(
    is_capturing: bool,
    pending: Seq<char>,
    key: HotkeyKey,
    ctrl: bool,
    shift: bool,
    alt: bool,
    code_name: Seq<char>,
) -> (bool, Seq<char>, Option<Seq<char>>, bool) {
    if !is_capturing {
        if key == HotkeyKey::Enter {
            (true, Seq::empty(), None, true)
        } else {
            (false, pending, None, false)
        }
    } else if key == HotkeyKey::Escape {
        (false, Seq::empty(), None, false)
    } else if (key == HotkeyKey::Backspace || key == HotkeyKey::Delete) && !ctrl && !shift && !alt {
        (false, Seq::empty(), Some(Seq::empty()), false)
    } else if key == HotkeyKey::Control || key == HotkeyKey::Shift || key == HotkeyKey::Alt || key
        == HotkeyKey::Meta {
        let parts = spec_modifier_prefix(ctrl, shift, alt);
        if parts.len() > 0 {
            (true, join_with(parts, "+"@) + "+..."@, None, true)
        } else {
            (true, pending, None, true)
        }
    } else {
        match spec_code_to_string(code_name) {
            Some(k) => (false, Seq::empty(), Some(join_with(spec_modifier_prefix(ctrl, shift, alt).push(k), "+"@)), true),
            None => (true, pending, None, true),
        }
    }
}

fn join_plus(parts: &Vec<String>) -> (r: Vec<char>)
    ensures
        r@ == join_with(strings_view(parts@), "+"@),
{
    let mut words: Vec<Vec<char>> = Vec::new();
    let mut i: usize = 0;
    while i < parts.len()
        invariant
            i <= parts.len(),
            words.len() == i,
            words_view(words@) == strings_view(parts@).take(i as int),
        decreases parts.len() - i,
    {
        let ghost before = words@;
        let c = chars_of(parts[i].as_str());
        words.push(c);
        assert forall|k: int| 0 <= k < i + 1 implies #[trigger] words_view(words@)[k] == strings_view(
            parts@,
        ).take(i + 1)[k] by {
            if k < i {
                assert(words@[k] == before[k]);
                assert(words_view(before)[k] == strings_view(parts@).take(i as int)[k]);
            }
        }
        assert(words_view(words@) =~= strings_view(parts@).take(i + 1));
        i = i + 1;
    }
    let sep = chars_of("+");
    let r = join_from(&words, 0, &sep);
    assert(words_view(words@).skip(0) =~= strings_view(parts@));
    r
}

impl HotkeyCapture {
    /// Not capturing, nothing pending.
    pub fn new() -> (r: Self)
        ensures
            !r.is_capturing,
            r.pending_display@ == Seq::<char>::empty(),
    {
        HotkeyCapture { is_capturing: false, pending_display: String::new() }
    }

    /// A click starts capturing.
    pub fn on_click(&mut self)
        ensures
            final(self).is_capturing,
            final(self).pending_display@ == Seq::<char>::empty(),
    {
        self.is_capturing = true;
        self.pending_display = String::new();
    }

    /// Losing focus stops capturing.
    pub fn on_blur(&mut self)
        ensures
            !final(self).is_capturing,
            final(self).pending_display@ == Seq::<char>::empty(),
    {
        self.is_capturing = false;
        self.pending_display = String::new();
    }

    /// Handles a key press. Outside capture mode only Enter starts capturing;
    /// in capture mode Escape cancels, Backspace or Delete without modifiers
    /// clears the hotkey, modifiers alone show what is held, and any key with
    /// a hotkey token completes the hotkey with the held modifiers.
    pub fn on_keydown(&mut self, key: HotkeyKey, ctrl: bool, shift: bool, alt: bool, code_name: &str) -> (r: KeydownOutcome)
        ensures
            ({
                let (capturing, pending, change, prevent) = spec_keydown(
                    old(self).is_capturing,
                    old(self).pending_display@,
                    key,
                    ctrl,
                    shift,
                    alt,
                    code_name@,
                );
                &&& final(self).is_capturing == capturing
                &&& final(self).pending_display@ == pending
                &&& r.prevent_default == prevent
                &&& match r.change {
                    Some(c) => change == Some(c@),
                    None => change is None,
                }
            }),
    {
        if !self.is_capturing {
            if key == HotkeyKey::Enter {
                self.is_capturing = true;
                self.pending_display = String::new();
                return KeydownOutcome { change: None, prevent_default: true };
            }
            return KeydownOutcome { change: None, prevent_default: false };
        }
        if key == HotkeyKey::Escape {
            self.is_capturing = false;
            self.pending_display = String::new();
            return KeydownOutcome { change: None, prevent_default: false };
        }
        if (key == HotkeyKey::Backspace || key == HotkeyKey::Delete) && !ctrl && !shift && !alt {
            self.is_capturing = false;
            self.pending_display = String::new();
            return KeydownOutcome { change: Some(String::new()), prevent_default: false };
        }
        if key == HotkeyKey::Control || key == HotkeyKey::Shift || key == HotkeyKey::Alt || key
            == HotkeyKey::Meta {
            let parts = build_modifier_prefix(ctrl, shift, alt);
            if parts.len() > 0 {
                let mut text = join_plus(&parts);
                let tail = chars_of("+...");
                crate::text::extend_chars(&mut text, &tail);
                self.pending_display = string_of(text.as_slice());
            }
            return KeydownOutcome { change: None, prevent_default: true };
        }
        match code_to_string(code_name) {
            Some(key_str) => {
                let mut parts = build_modifier_prefix(ctrl, shift, alt);
                let ghost before = parts@;
                parts.push(key_str);
                assert(strings_view(parts@) =~= strings_view(before).push(key_str@));
                let hotkey = join_plus(&parts);
                self.is_capturing = false;
                self.pending_display = String::new();
                KeydownOutcome { change: Some(string_of(hotkey.as_slice())), prevent_default: true }
            },
            None => KeydownOutcome { change: None, prevent_default: true },
        }
    }

    /// The text the input shows: a prompt or what is pending while
    /// capturing, else the hotkey, or the placeholder when there is none.
    pub fn display_value(&self, value: &str, placeholder: &str) -> (r: String)
        ensures
            r@ == if self.is_capturing {
                if self.pending_display@.len() == 0 {
                    "Press a key..."@
                } else {
                    self.pending_display@
                }
            } else if value@.len() == 0 {
                placeholder@
            } else {
                value@
            },
    {
        if self.is_capturing {
            if self.pending_display.as_str().unicode_len() == 0 {
                owned("Press a key...")
            } else {
                self.pending_display.clone()
            }
        } else if value.unicode_len() == 0 {
            owned(placeholder)
        } else {
            owned(value)
        }
    }

    /// The style class of the input.
    pub fn input_class(&self, value: &str) -> (r: &'static str)
        ensures
            r@ == if self.is_capturing {
                "hotkey-input hotkey-input--capturing"@
            } else if value@.len() == 0 {
                "hotkey-input hotkey-input--empty"@
            } else {
                "hotkey-input"@
            },
    {
        if self.is_capturing {
            "hotkey-input hotkey-input--capturing"
        } else if value.unicode_len() == 0 {
            "hotkey-input hotkey-input--empty"
        } else {
            "hotkey-input"
        }
    }

    /// The clear button shows when a hotkey is set and no key is awaited.
    pub fn shows_clear_button(&self, value: &str) -> (r: bool)
        ensures
            r == (value@.len() > 0 && !self.is_capturing),
    {
        value.unicode_len() > 0 && !self.is_capturing
    }
}

/// A reported hotkey always ends capturing, Escape never reports one, and
/// outside capture mode keys other than Enter change nothing.
pub proof fn law_capture_responses(
    is_capturing: bool,
    pending: Seq<char>,
    key: HotkeyKey,
    ctrl: bool,
    shift: bool,
    alt: bool,
    code_name: Seq<char>,
)
    ensures
        ({
            let (capturing, p, change, prevent) = spec_keydown(is_capturing, pending, key, ctrl, shift, alt, code_name);
            &&& change is Some ==> !capturing && p.len() == 0
            &&& key == HotkeyKey::Escape ==> change is None && !capturing
            &&& (!is_capturing && key != HotkeyKey::Enter) ==> (capturing == is_capturing && p == pending
                && change is None && !prevent)
        }),
{
}


/// An arrow key's token is its code name without the `Arrow` prefix (the
/// arrow keys give `Up`, `Down`, `Left` and `Right`), and each of the four
/// arrows has one.
pub proof fn law_arrow_keys_name_their_direction(name: Seq<char>)
    requires
        starts_with(name, "Arrow"@),
    ensures
        spec_code_to_string(name) matches Some(t) ==> t == name.skip(5),
        (name.skip(5) == "Up"@ || name.skip(5) == "Down"@ || name.skip(5) == "Left"@ || name.skip(5) == "Right"@)
            ==> spec_code_to_string(name) is Some,
{
    reveal_strlit("'");
    reveal_strlit(",");
    reveal_strlit("-");
    reveal_strlit(".");
    reveal_strlit("/");
    reveal_strlit(";");
    reveal_strlit("=");
    reveal_strlit("ArrowDown");
    reveal_strlit("ArrowLeft");
    reveal_strlit("ArrowRight");
    reveal_strlit("ArrowUp");
    reveal_strlit("Backquote");
    reveal_strlit("Backslash");
    reveal_strlit("BracketLeft");
    reveal_strlit("BracketRight");
    reveal_strlit("Comma");
    reveal_strlit("Digit");
    reveal_strlit("Down");
    reveal_strlit("End");
    reveal_strlit("Enter");
    reveal_strlit("Equal");
    reveal_strlit("F1");
    reveal_strlit("F10");
    reveal_strlit("F11");
    reveal_strlit("F12");
    reveal_strlit("F2");
    reveal_strlit("F3");
    reveal_strlit("F4");
    reveal_strlit("F5");
    reveal_strlit("F6");
    reveal_strlit("F7");
    reveal_strlit("F8");
    reveal_strlit("F9");
    reveal_strlit("Home");
    reveal_strlit("Insert");
    reveal_strlit("Key");
    reveal_strlit("Left");
    reveal_strlit("Minus");
    reveal_strlit("Numpad");
    reveal_strlit("PageDown");
    reveal_strlit("PageUp");
    reveal_strlit("Period");
    reveal_strlit("Quote");
    reveal_strlit("Right");
    reveal_strlit("Semicolon");
    reveal_strlit("Slash");
    reveal_strlit("Tab");
    reveal_strlit("Up");
    reveal_strlit("[");
    reveal_strlit("\\");
    reveal_strlit("]");
    reveal_strlit("`");
    reveal_strlit("Arrow");
    assert(name =~= name.take(5) + name.skip(5));
    assert(name.take(5)[0] == name[0]);
    assert(name[0] == 'A');
    if name.skip(5) == "Up"@ {
        assert(name =~= "ArrowUp"@);
    } else if name.skip(5) == "Down"@ {
        assert(name =~= "ArrowDown"@);
    } else if name.skip(5) == "Left"@ {
        assert(name =~= "ArrowLeft"@);
    } else if name.skip(5) == "Right"@ {
        assert(name =~= "ArrowRight"@);
    }
}

} // verus!
