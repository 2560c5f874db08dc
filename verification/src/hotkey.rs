//! Hotkey strings such as `"Ctrl+Alt+S"` and the identifiers under which the
//! hotkeys are registered.

use vstd::prelude::*;
use crate::events::HotkeyAction;
use crate::text::{ascii_lower, dec, digit_char, is_ascii_text, split_state, trim_end, trim_start, chars_eq_str, chars_of, split, split_chars, lowercase_of, string_from_chars, to_lowercase, trim, trim_chars};

verus! {

pub const HOTKEY_ID_SCREENSHOT: i32 = 1001;
pub const HOTKEY_ID_LONGSHOT: i32 = 1002;
pub const HOTKEY_ID_COLOR: i32 = 1003;
pub const HOTKEY_ID_PIN: i32 = 1004;
pub const HOTKEY_ID_SETTINGS: i32 = 1005;

pub const MOD_ALT: u32 = 0x0001;
pub const MOD_CONTROL: u32 = 0x0002;
pub const MOD_SHIFT: u32 = 0x0004;
pub const MOD_WIN: u32 = 0x0008;

/// A hotkey as the platform registers it: modifier flags and a virtual key.
#[derive(Debug, Clone, Copy, PartialEq, Eq, Structural)]
pub struct ParsedHotkey {
    pub modifiers: u32,
    pub vk: u32,
}

/// The virtual key of a function-key name `f1` .. `f12`, if it is one.
pub open spec fn function_key(t: Seq<char>) -> Option<u32> {
    if t == "f1"@ { Some(0x70u32) }
    else if t == "f2"@ { Some(0x71u32) }
    else if t == "f3"@ { Some(0x72u32) }
    else if t == "f4"@ { Some(0x73u32) }
    else if t == "f5"@ { Some(0x74u32) }
    else if t == "f6"@ { Some(0x75u32) }
    else if t == "f7"@ { Some(0x76u32) }
    else if t == "f8"@ { Some(0x77u32) }
    else if t == "f9"@ { Some(0x78u32) }
    else if t == "f10"@ { Some(0x79u32) }
    else if t == "f11"@ { Some(0x7Au32) }
    else if t == "f12"@ { Some(0x7Bu32) }
    else { None }
}

/// ASCII upper case of a character.
pub open spec fn ascii_upper(c: char) -> u32 {
    if 'a' <= c <= 'z' { (c as u32 - 32) as u32 } else { c as u32 }
}

/// Whether a code point is an ASCII letter or digit.
pub open spec fn ascii_alnum(u: u32) -> bool {
    (0x30 <= u <= 0x39) || (0x41 <= u <= 0x5A) || (0x61 <= u <= 0x7A)
}

/// The modifiers and key after reading one lower-cased token: modifier names
/// add their flag, key names set the key, a single ASCII letter or digit sets
/// the key to its upper-case code, anything else changes nothing.
pub open spec fn token_effect(mods: u32, vk: u32, t: Seq<char>) -> (u32, u32) {
    if t == "ctrl"@ || t == "control"@ {
        (mods | MOD_CONTROL, vk)
    } else if t == "alt"@ {
        (mods | MOD_ALT, vk)
    } else if t == "shift"@ {
        (mods | MOD_SHIFT, vk)
    } else if t == "win"@ || t == "meta"@ {
        (mods | MOD_WIN, vk)
    } else if function_key(t) is Some {
        (mods, function_key(t)->0)
    } else if t.len() == 1 && (t[0] as u32) < 0x80 {
        if ascii_alnum(ascii_upper(t[0])) { (mods, ascii_upper(t[0])) } else { (mods, vk) }
    } else if t == "esc"@ || t == "escape"@ {
        (mods, 0x1Bu32)
    } else if t == "printscreen"@ || t == "prtscn"@ {
        (mods, 0x2Cu32)
    } else {
        (mods, vk)
    }
}

/// Modifiers and key after the first `n` tokens.
pub open spec fn tokens_effect(tokens: Seq<Seq<char>>, n: nat) -> (u32, u32)
    decreases n,
{
    if n == 0 {
        (0, 0)
    } else {
        let (m, k) = tokens_effect(tokens, (n - 1) as nat);
        token_effect(m, k, tokens[n - 1])
    }
}

/// The hotkey described by lower-cased tokens: present when some token named a
/// key.
pub open spec fn spec_hotkey_from_tokens(tokens: Seq<Seq<char>>) -> Option<ParsedHotkey> {
    let (m, k) = tokens_effect(tokens, tokens.len());
    if k != 0 { Some(ParsedHotkey { modifiers: m, vk: k }) } else { None }
}

/// The tokens of a hotkey string: its `+`-separated parts, trimmed and
/// lower-cased.
pub open spec fn hotkey_tokens(s: Seq<char>) -> Seq<Seq<char>> {
    split(s, '+').map_values(|p: Seq<char>| lowercase_of(trim(p)))
}

fn function_key_exec(t: &Vec<char>) -> (r: Option<u32>)
    ensures
        r == function_key(t@),
{
    if chars_eq_str(t, "f1") { Some(0x70) }
    else if chars_eq_str(t, "f2") { Some(0x71) }
    else if chars_eq_str(t, "f3") { Some(0x72) }
    else if chars_eq_str(t, "f4") { Some(0x73) }
    else if chars_eq_str(t, "f5") { Some(0x74) }
    else if chars_eq_str(t, "f6") { Some(0x75) }
    else if chars_eq_str(t, "f7") { Some(0x76) }
    else if chars_eq_str(t, "f8") { Some(0x77) }
    else if chars_eq_str(t, "f9") { Some(0x78) }
    else if chars_eq_str(t, "f10") { Some(0x79) }
    else if chars_eq_str(t, "f11") { Some(0x7A) }
    else if chars_eq_str(t, "f12") { Some(0x7B) }
    else { None }
}

fn token_effect_exec(mods: u32, vk: u32, t: &Vec<char>) -> (r: (u32, u32))
    ensures
        r == token_effect(mods, vk, t@),
{
    if chars_eq_str(t, "ctrl") || chars_eq_str(t, "control") {
        (mods | MOD_CONTROL, vk)
    } else if chars_eq_str(t, "alt") {
        (mods | MOD_ALT, vk)
    } else if chars_eq_str(t, "shift") {
        (mods | MOD_SHIFT, vk)
    } else if chars_eq_str(t, "win") || chars_eq_str(t, "meta") {
        (mods | MOD_WIN, vk)
    } else {
        match function_key_exec(t) {
            Some(k) => (mods, k),
            None => {
                if t.len() == 1 && (t[0] as u32) < 0x80 {
                    let c = t[0];
                    let u: u32 = if 'a' <= c && c <= 'z' { c as u32 - 32 } else { c as u32 };
                    if (0x30 <= u && u <= 0x39) || (0x41 <= u && u <= 0x5A) || (0x61 <= u && u <= 0x7A) {
                        (mods, u)
                    } else {
                        (mods, vk)
                    }
                } else if chars_eq_str(t, "esc") || chars_eq_str(t, "escape") {
                    (mods, 0x1B)
                } else if chars_eq_str(t, "printscreen") || chars_eq_str(t, "prtscn") {
                    (mods, 0x2C)
                } else {
                    (mods, vk)
                }
            },
        }
    }
}

/// The hotkey described by already lower-cased, trimmed tokens.
pub fn hotkey_from_tokens(tokens: &Vec<String>) -> (r: Option<ParsedHotkey>)
    ensures
        r == spec_hotkey_from_tokens(tokens@.map_values(|t: String| t@)),
{
    let ghost ts = tokens@.map_values(|t: String| t@);
    let mut modifiers: u32 = 0;
    let mut vk: u32 = 0;
    let mut i: usize = 0;
    while i < tokens.len()
        invariant
            i <= tokens@.len(),
            ts == tokens@.map_values(|t: String| t@),
            (modifiers, vk) == tokens_effect(ts, i as nat),
        decreases tokens@.len() - i,
    {
        let t = chars_of(tokens[i].as_str());
        let (m, k) = token_effect_exec(modifiers, vk, &t);
        modifiers = m;
        vk = k;
        i = i + 1;
    }
    if vk != 0 {
        Some(ParsedHotkey { modifiers, vk })
    } else {
        None
    }
}

/// Parses a hotkey string such as `"Ctrl+Alt+S"` or `"F1"`: the
/// `+`-separated parts are trimmed and lower-cased, modifier names
/// (`ctrl`/`control`, `alt`, `shift`, `win`/`meta`) set their flags and key
/// names (`f1`..`f12`, single letters and digits, `esc`/`escape`,
/// `printscreen`/`prtscn`) set the key, the last one named winning. There is
/// a hotkey when some part named a key.
pub fn parse_hotkey_str(s: &str) -> (r: Option<ParsedHotkey>)
    ensures
        r == spec_hotkey_from_tokens(hotkey_tokens(s@)),
{
    let chars = chars_of(s);
    let parts = split_chars(&chars, '+');
    let ghost sp = split(s@, '+');
    let mut tokens: Vec<String> = Vec::new();
    let mut i: usize = 0;
    while i < parts.len()
        invariant
            chars@ == s@,
            sp == split(s@, '+'),
            parts@.len() == sp.len(),
            forall|j: int| 0 <= j < parts@.len() ==> #[trigger] parts@[j]@ == sp[j],
            i <= parts@.len(),
            tokens@.len() == i,
            forall|j: int| 0 <= j < i ==> #[trigger] tokens@[j]@ == lowercase_of(trim(sp[j])),
        decreases parts@.len() - i,
    {
        let trimmed = trim_chars(&parts[i]);
        let st = string_from_chars(&trimmed);
        let low = to_lowercase(st.as_str());
        tokens.push(low);
        i = i + 1;
    }
    proof {
        assert(tokens@.map_values(|t: String| t@) =~= hotkey_tokens(s@));
    }
    hotkey_from_tokens(&tokens)
}

/// The action registered under a hotkey identifier, if any.
pub open spec fn hotkey_action_of(id: i32) -> Option<HotkeyAction> {
    if id == HOTKEY_ID_SCREENSHOT {
        Some(HotkeyAction::Screenshot)
    } else if id == HOTKEY_ID_LONGSHOT {
        Some(HotkeyAction::Longshot)
    } else if id == HOTKEY_ID_COLOR {
        Some(HotkeyAction::ColorPicker)
    } else if id == HOTKEY_ID_PIN {
        Some(HotkeyAction::Pin)
    } else if id == HOTKEY_ID_SETTINGS {
        Some(HotkeyAction::Settings)
    } else {
        None
    }
}

/// The action of a registered hotkey identifier.
pub fn map_hotkey_id_to_action(id: i32) -> (r: Option<HotkeyAction>)
    ensures
        r == hotkey_action_of(id),
        id == HOTKEY_ID_SCREENSHOT ==> r == Some(HotkeyAction::Screenshot),
        id == HOTKEY_ID_LONGSHOT ==> r == Some(HotkeyAction::Longshot),
        id == HOTKEY_ID_COLOR ==> r == Some(HotkeyAction::ColorPicker),
        id == HOTKEY_ID_PIN ==> r == Some(HotkeyAction::Pin),
        id == HOTKEY_ID_SETTINGS ==> r == Some(HotkeyAction::Settings),
        !(HOTKEY_ID_SCREENSHOT <= id <= HOTKEY_ID_SETTINGS) ==> r.is_none(),
{
    match id {
        HOTKEY_ID_SCREENSHOT => Some(HotkeyAction::Screenshot),
        HOTKEY_ID_LONGSHOT => Some(HotkeyAction::Longshot),
        HOTKEY_ID_COLOR => Some(HotkeyAction::ColorPicker),
        HOTKEY_ID_PIN => Some(HotkeyAction::Pin),
        HOTKEY_ID_SETTINGS => Some(HotkeyAction::Settings),
        _ => None,
    }
}


/// The name of function key `n` (`f1` .. `f12`) in lower case.
pub open spec fn function_key_name(n: nat) -> Seq<char> {
    seq!['f'] + dec(n)
}

/// The function-key names are numbered in order: `fN` names the virtual key
/// `0x6F + N`, so `f1` .. `f12` name `0x70` .. `0x7B` and different names
/// name different keys; a hotkey made of that name alone is that key with
/// no modifier.
pub proof fn lemma_function_keys_in_order(n: nat)
    requires
        1 <= n <= 12,
    ensures
        function_key(function_key_name(n)) == Some((0x6F + n) as u32),
        spec_hotkey_from_tokens(seq![function_key_name(n)])
            == Some(ParsedHotkey { modifiers: 0, vk: (0x6F + n) as u32 }),
{
    reveal_strlit("f1");
    reveal_strlit("f2");
    reveal_strlit("f3");
    reveal_strlit("f4");
    reveal_strlit("f5");
    reveal_strlit("f6");
    reveal_strlit("f7");
    reveal_strlit("f8");
    reveal_strlit("f9");
    reveal_strlit("f10");
    reveal_strlit("f11");
    reveal_strlit("f12");
    reveal_strlit("ctrl");
    reveal_strlit("control");
    reveal_strlit("alt");
    reveal_strlit("shift");
    reveal_strlit("win");
    reveal_strlit("meta");
    let t = function_key_name(n);
    assert(t[0] == 'f');
    if n < 10 {
        assert(t.len() == 2);
        assert(t[1] == digit_char(n as int));
    } else {
        assert(dec(n) == dec(1).push(digit_char((n % 10) as int)));
        assert(t.len() == 3);
        assert(t[1] == '1');
        assert(t[2] == digit_char((n % 10) as int));
    }
    if n == 1 {
        assert(t =~= "f1"@);
    }
    if n == 2 {
        assert(t =~= "f2"@);
    }
    if n == 3 {
        assert(t =~= "f3"@);
    }
    if n == 4 {
        assert(t =~= "f4"@);
    }
    if n == 5 {
        assert(t =~= "f5"@);
    }
    if n == 6 {
        assert(t =~= "f6"@);
    }
    if n == 7 {
        assert(t =~= "f7"@);
    }
    if n == 8 {
        assert(t =~= "f8"@);
    }
    if n == 9 {
        assert(t =~= "f9"@);
    }
    if n == 10 {
        assert(t =~= "f10"@);
    }
    if n == 11 {
        assert(t =~= "f11"@);
    }
    if n == 12 {
        assert(t =~= "f12"@);
    }
    let toks = seq![t];
    assert(toks[0] == t);
    assert(tokens_effect(toks, 0) == (0u32, 0u32));
    assert(tokens_effect(toks, 1) == token_effect(0, 0, t));
}


proof fn lemma_split_without_separator(s: Seq<char>, sep: char, n: nat)
    requires
        n <= s.len(),
        forall|i: int| 0 <= i < n ==> s[i] != sep,
    ensures
        split_state(s, sep, n) == (Seq::<Seq<char>>::empty(), s.take(n as int)),
    decreases n,
{
    if n > 0 {
        lemma_split_without_separator(s, sep, (n - 1) as nat);
        assert(s.take(n as int) =~= s.take(n - 1).push(s[n - 1]));
    } else {
        assert(s.take(0) =~= Seq::<char>::empty());
    }
}

/// The hotkey text `FN` or `fN` (`N` from 1 to 12, any letter case of the
/// `F`) is read as function key `N`, virtual key `0x6F + N`, with no
/// modifier.
pub proof fn lemma_function_key_text(n: nat, upper: bool)
    requires
        1 <= n <= 12,
    ensures
        spec_hotkey_from_tokens(hotkey_tokens(seq![if upper { 'F' } else { 'f' }] + dec(n)))
            == Some(ParsedHotkey { modifiers: 0, vk: (0x6F + n) as u32 }),
{
    let s = seq![if upper { 'F' } else { 'f' }] + dec(n);
    let t = function_key_name(n);
    if n < 10 {
        assert(s.len() == 2);
        assert(s[1] == digit_char(n as int));
    } else {
        assert(dec(n) == dec(1).push(digit_char((n % 10) as int)));
        assert(s.len() == 3);
        assert(s[1] == '1');
        assert(s[2] == digit_char((n % 10) as int));
    }
    lemma_split_without_separator(s, '+', s.len());
    assert(s.take(s.len() as int) =~= s);
    assert(split(s, '+') =~= seq![s]);
    assert(trim_start(s) == s);
    assert(trim_end(s) == s);
    assert(is_ascii_text(s));
    assert(s.map_values(|c: char| ascii_lower(c)) =~= t);
    assert(hotkey_tokens(s) =~= seq![t]);
    lemma_function_keys_in_order(n);
}

} // verus!
