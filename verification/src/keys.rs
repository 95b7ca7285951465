use vstd::prelude::*;
use crate::chars::chars_of;
use crate::chars::chars_equal_str;
use vstd::utf8::encode_utf8;

verus! {

/// The modifier keys held during a keystroke.
#[derive(Clone, Copy, Debug, PartialEq, Eq, Structural)]
pub struct Modifiers {
    pub control: bool,
    pub alt: bool,
    pub shift: bool,
    pub platform: bool,
    pub function: bool,
}

/// A keystroke: the key's name, the text it types (if any), and modifiers.
pub struct Keystroke {
    pub key: String,
    pub key_char: Option<String>,
    pub modifiers: Modifiers,
}

/// The bytes a named key sends to the terminal.
pub open spec fn named_key_bytes(key: Seq<char>) -> Option<Seq<u8>> {
    if key == "enter"@ {
        Some(seq![13u8])
    } else if key == "space"@ {
        Some(seq![32u8])
    } else if key == "backspace"@ {
        Some(seq![127u8])
    } else if key == "tab"@ {
        Some(seq![9u8])
    } else if key == "escape"@ {
        Some(seq![27u8])
    } else if key == "up"@ {
        Some(seq![27u8, 91u8, 65u8])
    } else if key == "down"@ {
        Some(seq![27u8, 91u8, 66u8])
    } else if key == "right"@ {
        Some(seq![27u8, 91u8, 67u8])
    } else if key == "left"@ {
        Some(seq![27u8, 91u8, 68u8])
    } else if key == "home"@ {
        Some(seq![27u8, 91u8, 72u8])
    } else if key == "end"@ {
        Some(seq![27u8, 91u8, 70u8])
    } else if key == "delete"@ {
        Some(seq![27u8, 91u8, 51u8, 126u8])
    } else if key == "insert"@ {
        Some(seq![27u8, 91u8, 50u8, 126u8])
    } else if key == "pageup"@ {
        Some(seq![27u8, 91u8, 53u8, 126u8])
    } else if key == "pagedown"@ {
        Some(seq![27u8, 91u8, 54u8, 126u8])
    } else {
        None
    }
}

pub open spec fn is_ascii_letter(b: u8) -> bool {
    (65 <= b <= 90) || (97 <= b <= 122)
}

/// The control character that Ctrl with the given typed text sends: a
/// letter gives its position in the alphabet, and space, `@`, `[`, `\`,
/// `]`, `^`, `_` give 0 and 27 to 31.
pub open spec fn control_byte(text: Seq<u8>) -> Option<u8> {
    if text.len() == 1 && is_ascii_letter(text[0]) {
        Some((if text[0] <= 90 { text[0] + 32 } else { text[0] as int } - 97 + 1) as u8)
    } else if text == seq![32u8] || text == seq![64u8] {
        Some(0)
    } else if text == seq![91u8] {
        Some(27)
    } else if text == seq![92u8] {
        Some(28)
    } else if text == seq![93u8] {
        Some(29)
    } else if text == seq![94u8] {
        Some(30)
    } else if text == seq![95u8] {
        Some(31)
    } else {
        None
    }
}

/// The bytes a keystroke sends to the program in the terminal: a named key
/// sends its sequence; otherwise the typed text (or the key name) is sent as
/// a control character with Ctrl, nothing with the platform or function
/// modifier, and as UTF-8 (after an escape with Alt) otherwise.
pub open spec fn keystroke_bytes(key: Seq<char>, key_char: Option<Seq<char>>, modifiers: Modifiers) -> Option<Seq<u8>> {
    match named_key_bytes(key) {
        Some(sequence) => Some(sequence),
        None => {
            let text = match key_char {
                Some(t) => t,
                None => key,
            };
            let bytes = encode_utf8(text);
            if modifiers.control {
                match control_byte(bytes) {
                    Some(b) => Some(seq![b]),
                    None => None,
                }
            } else if modifiers.platform || modifiers.function {
                None
            } else {
                let sent = if modifiers.alt { seq![27u8] + bytes } else { bytes };
                if sent.len() == 0 {
                    None
                } else {
                    Some(sent)
                }
            }
        },
    }
}

pub open spec fn key_char_view(key_char: Option<String>) -> Option<Seq<char>> {
    match key_char {
        Some(t) => Some(t@),
        None => None,
    }
}

fn bytes_of(text: &[u8]) -> (v: Vec<u8>)
    ensures
        v@ == text@,
{
    let mut v: Vec<u8> = Vec::new();
    let mut i: usize = 0;
    while i < text.len()
        invariant
            i <= text@.len(),
            v@ == text@.subrange(0, i as int),
        decreases text@.len() - i,
    {
        v.push(text[i]);
        i = i + 1;
        assert(v@ =~= text@.subrange(0, i as int));
    }
    assert(text@.subrange(0, text@.len() as int) =~= text@);
    v
}

fn named_key_sequence(key: &str) -> (bytes: Option<Vec<u8>>)
    ensures
        match bytes {
            Some(b) => named_key_bytes(key@) == Some(b@),
            None => named_key_bytes(key@) is None,
        },
{
    let k = chars_of(key);
    let mut out: Vec<u8> = Vec::new();
    if chars_equal_str(&k, "enter") {
        out.push(13);
    } else if chars_equal_str(&k, "space") {
        out.push(32);
    } else if chars_equal_str(&k, "backspace") {
        out.push(127);
    } else if chars_equal_str(&k, "tab") {
        out.push(9);
    } else if chars_equal_str(&k, "escape") {
        out.push(27);
    } else if chars_equal_str(&k, "up") {
        out.push(27); out.push(91); out.push(65);
    } else if chars_equal_str(&k, "down") {
        out.push(27); out.push(91); out.push(66);
    } else if chars_equal_str(&k, "right") {
        out.push(27); out.push(91); out.push(67);
    } else if chars_equal_str(&k, "left") {
        out.push(27); out.push(91); out.push(68);
    } else if chars_equal_str(&k, "home") {
        out.push(27); out.push(91); out.push(72);
    } else if chars_equal_str(&k, "end") {
        out.push(27); out.push(91); out.push(70);
    } else if chars_equal_str(&k, "delete") {
        out.push(27); out.push(91); out.push(51); out.push(126);
    } else if chars_equal_str(&k, "insert") {
        out.push(27); out.push(91); out.push(50); out.push(126);
    } else if chars_equal_str(&k, "pageup") {
        out.push(27); out.push(91); out.push(53); out.push(126);
    } else if chars_equal_str(&k, "pagedown") {
        out.push(27); out.push(91); out.push(54); out.push(126);
    } else {
        return None;
    }
    assert(named_key_bytes(key@) == Some(out@)) by {
        assert(out@ =~= named_key_bytes(key@)->0);
    }
    Some(out)
}

fn control_byte_of(text: &[u8]) -> (b: Option<u8>)
    ensures
        b == control_byte(text@),
{
    if text.len() != 1 {
        assert(text@ != seq![32u8] && text@ != seq![64u8] && text@ != seq![91u8] && text@ != seq![92u8]
            && text@ != seq![93u8] && text@ != seq![94u8] && text@ != seq![95u8]);
        return None;
    }
    let c = text[0];
    assert(text@ =~= seq![c]);
    if (65 <= c && c <= 90) || (97 <= c && c <= 122) {
        let lower = if c <= 90 { c + 32 } else { c };
        Some(lower - 97 + 1)
    } else if c == 32 || c == 64 {
        Some(0)
    } else if c == 91 {
        Some(27)
    } else if c == 92 {
        Some(28)
    } else if c == 93 {
        Some(29)
    } else if c == 94 {
        Some(30)
    } else if c == 95 {
        Some(31)
    } else {
        None
    }
}

/// The bytes to send to the terminal's program for a keystroke, if any.
pub fn terminal_input_bytes(keystroke: &Keystroke) -> (bytes: Option<Vec<u8>>)
    ensures
        match bytes {
            Some(b) => keystroke_bytes(
                keystroke.key@,
                key_char_view(keystroke.key_char),
                keystroke.modifiers,
            ) == Some(b@),
            None => keystroke_bytes(
                keystroke.key@,
                key_char_view(keystroke.key_char),
                keystroke.modifiers,
            ) is None,
        },
{
    let key = keystroke.key.as_str();
    if let Some(sequence) = named_key_sequence(key) {
        return Some(sequence);
    }
    let text: &str = match &keystroke.key_char {
        Some(t) => t.as_str(),
        None => key,
    };
    let modifiers = keystroke.modifiers;
    let raw = text.as_bytes();
    if modifiers.control {
        return match control_byte_of(raw) {
            Some(b) => {
                let mut v: Vec<u8> = Vec::new();
                v.push(b);
                assert(v@ =~= seq![b]);
                Some(v)
            },
            None => None,
        };
    }
    if modifiers.platform || modifiers.function {
        return None;
    }
    let mut bytes: Vec<u8> = Vec::new();
    if modifiers.alt {
        bytes.push(27);
    }
    let mut rest = bytes_of(raw);
    bytes.append(&mut rest);
    if bytes.len() == 0 {
        None
    } else {
        assert(bytes@ =~= (if modifiers.alt { seq![27u8] + raw@ } else { raw@ }));
        Some(bytes)
    }
}

/// What the terminal panel does with a key: leave Ctrl+` to the window
/// (it toggles the panel), paste on Ctrl+Shift+V or the platform key with
/// V, and otherwise send the keystroke's bytes, if it has any.
#[derive(Clone, Debug, PartialEq, Eq)]
pub enum TerminalKeyAction {
    PassThrough,
    Paste,
    Send(Vec<u8>),
    Ignore,
}

/// A terminal key action as plain values.
pub enum KeyDecision {
    PassThrough,
    Paste,
    Send(Seq<u8>),
    Ignore,
}

/// A terminal key action as plain values.
pub open spec fn decision_of(action: TerminalKeyAction) -> KeyDecision {
    match action {
        TerminalKeyAction::PassThrough => KeyDecision::PassThrough,
        TerminalKeyAction::Paste => KeyDecision::Paste,
        TerminalKeyAction::Send(b) => KeyDecision::Send(b@),
        TerminalKeyAction::Ignore => KeyDecision::Ignore,
    }
}

/// What the terminal panel does with a keystroke (see `TerminalKeyAction`).
pub open spec fn terminal_key_spec(keystroke: Keystroke) -> KeyDecision {
    let m = keystroke.modifiers;
    let key = keystroke.key@;
    if m.control && key == "`"@ {
        KeyDecision::PassThrough
    } else if (m.control && m.shift && key == "v"@) || (m.platform && key == "v"@) {
        KeyDecision::Paste
    } else {
        match keystroke_bytes(key, key_char_view(keystroke.key_char), m) {
            Some(b) => KeyDecision::Send(b),
            None => KeyDecision::Ignore,
        }
    }
}

/// What the terminal panel does with a keystroke (see `terminal_key_spec`).
pub fn terminal_key_action(keystroke: &Keystroke) -> (action: TerminalKeyAction)
    ensures
        decision_of(action) == terminal_key_spec(*keystroke),
{
    let m = keystroke.modifiers;
    let key = chars_of(keystroke.key.as_str());
    if m.control && chars_equal_str(&key, "`") {
        return TerminalKeyAction::PassThrough;
    }
    let is_v = chars_equal_str(&key, "v");
    if (m.control && m.shift && is_v) || (m.platform && is_v) {
        return TerminalKeyAction::Paste;
    }
    match terminal_input_bytes(keystroke) {
        Some(bytes) => TerminalKeyAction::Send(bytes),
        None => TerminalKeyAction::Ignore,
    }
}

/// Pasted text as the terminal receives it: every line break (`\r\n` or
/// `\n`) becomes a carriage return.
pub open spec fn pasted(text: Seq<char>) -> Seq<char>
    decreases text.len(),
{
    if text.len() == 0 {
        Seq::empty()
    } else if text.len() >= 2 && text[0] == '\r' && text[1] == '\n' {
        seq!['\r'] + pasted(text.subrange(2, text.len() as int))
    } else if text[0] == '\n' {
        seq!['\r'] + pasted(text.drop_first())
    } else {
        seq![text[0]] + pasted(text.drop_first())
    }
}

/// Pasted text as the terminal receives it (see `pasted`).
pub fn paste_text(text: &str) -> (sent: Vec<char>)
    ensures
        sent@ == pasted(text@),
{
    let t = chars_of(text);
    let mut out: Vec<char> = Vec::new();
    let mut i: usize = 0;
    assert(t@.subrange(0, t@.len() as int) =~= t@);
    while i < t.len()
        invariant
            i <= t@.len(),
            out@ + pasted(t@.subrange(i as int, t@.len() as int)) == pasted(t@),
        decreases t@.len() - i,
    {
        let ghost rest = t@.subrange(i as int, t@.len() as int);
        let ghost before = out@;
        if t[i] == '\r' && i + 1 < t.len() && t[i + 1] == '\n' {
            out.push('\r');
            assert(rest.subrange(2, rest.len() as int) =~= t@.subrange(i + 2, t@.len() as int));
            assert(before + pasted(rest) =~= out@ + pasted(t@.subrange(i + 2, t@.len() as int)));
            i = i + 2;
        } else {
            if t[i] == '\n' {
                out.push('\r');
            } else {
                out.push(t[i]);
            }
            assert(rest.drop_first() =~= t@.subrange(i + 1, t@.len() as int));
            assert(before + pasted(rest) =~= out@ + pasted(t@.subrange(i + 1, t@.len() as int)));
            i = i + 1;
        }
    }
    assert(t@.subrange(t@.len() as int, t@.len() as int) =~= Seq::<char>::empty());
    assert(out@ + Seq::<char>::empty() =~= out@);
    out
}

/// The named keys send the VT sequences, whatever text and modifiers come
/// with the keystroke: Enter CR, Space a space, Backspace DEL, Tab HT,
/// Escape ESC; the arrows ESC [ A (up), ESC [ B (down), ESC [ C (right),
/// ESC [ D (left); Home ESC [ H, End ESC [ F; Delete, Insert, Page Up and
/// Page Down ESC [ 3 ~, ESC [ 2 ~, ESC [ 5 ~, ESC [ 6 ~. No two arrows send
/// the same bytes.
pub proof fn law_named_keys_send_vt_sequences(key_char: Option<Seq<char>>, modifiers: Modifiers)
    ensures
        keystroke_bytes("enter"@, key_char, modifiers) == Some(seq![13u8]),
        keystroke_bytes("space"@, key_char, modifiers) == Some(seq![32u8]),
        keystroke_bytes("backspace"@, key_char, modifiers) == Some(seq![127u8]),
        keystroke_bytes("tab"@, key_char, modifiers) == Some(seq![9u8]),
        keystroke_bytes("escape"@, key_char, modifiers) == Some(seq![27u8]),
        keystroke_bytes("up"@, key_char, modifiers) == Some(seq![27u8, 91u8, 65u8]),
        keystroke_bytes("down"@, key_char, modifiers) == Some(seq![27u8, 91u8, 66u8]),
        keystroke_bytes("right"@, key_char, modifiers) == Some(seq![27u8, 91u8, 67u8]),
        keystroke_bytes("left"@, key_char, modifiers) == Some(seq![27u8, 91u8, 68u8]),
        keystroke_bytes("home"@, key_char, modifiers) == Some(seq![27u8, 91u8, 72u8]),
        keystroke_bytes("end"@, key_char, modifiers) == Some(seq![27u8, 91u8, 70u8]),
        keystroke_bytes("delete"@, key_char, modifiers) == Some(seq![27u8, 91u8, 51u8, 126u8]),
        keystroke_bytes("insert"@, key_char, modifiers) == Some(seq![27u8, 91u8, 50u8, 126u8]),
        keystroke_bytes("pageup"@, key_char, modifiers) == Some(seq![27u8, 91u8, 53u8, 126u8]),
        keystroke_bytes("pagedown"@, key_char, modifiers) == Some(seq![27u8, 91u8, 54u8, 126u8]),
        ({
            let arrows = seq!["up"@, "down"@, "right"@, "left"@];
            forall|i: int, j: int|
                0 <= i < 4 && 0 <= j < 4 && i != j ==> keystroke_bytes(#[trigger] arrows[i], key_char, modifiers)
                    != keystroke_bytes(#[trigger] arrows[j], key_char, modifiers)
        }),
{
    assert(keystroke_bytes("enter"@, key_char, modifiers) == Some(seq![13u8])) by {
        reveal_strlit("enter");
    }
    assert(keystroke_bytes("space"@, key_char, modifiers) == Some(seq![32u8])) by {
        reveal_strlit("space");
        reveal_strlit("enter");
        assert("space"@[0] != "enter"@[0]);
    }
    assert(keystroke_bytes("backspace"@, key_char, modifiers) == Some(seq![127u8])) by {
        reveal_strlit("backspace");
        reveal_strlit("enter");
        assert("backspace"@.len() != "enter"@.len());
        reveal_strlit("space");
        assert("backspace"@.len() != "space"@.len());
    }
    assert(keystroke_bytes("tab"@, key_char, modifiers) == Some(seq![9u8])) by {
        reveal_strlit("tab");
        reveal_strlit("enter");
        assert("tab"@.len() != "enter"@.len());
        reveal_strlit("space");
        assert("tab"@.len() != "space"@.len());
        reveal_strlit("backspace");
        assert("tab"@.len() != "backspace"@.len());
    }
    assert(keystroke_bytes("escape"@, key_char, modifiers) == Some(seq![27u8])) by {
        reveal_strlit("escape");
        reveal_strlit("enter");
        assert("escape"@.len() != "enter"@.len());
        reveal_strlit("space");
        assert("escape"@.len() != "space"@.len());
        reveal_strlit("backspace");
        assert("escape"@.len() != "backspace"@.len());
        reveal_strlit("tab");
        assert("escape"@.len() != "tab"@.len());
    }
    assert(keystroke_bytes("up"@, key_char, modifiers) == Some(seq![27u8, 91u8, 65u8])) by {
        reveal_strlit("up");
        reveal_strlit("enter");
        assert("up"@.len() != "enter"@.len());
        reveal_strlit("space");
        assert("up"@.len() != "space"@.len());
        reveal_strlit("backspace");
        assert("up"@.len() != "backspace"@.len());
        reveal_strlit("tab");
        assert("up"@.len() != "tab"@.len());
        reveal_strlit("escape");
        assert("up"@.len() != "escape"@.len());
    }
    assert(keystroke_bytes("down"@, key_char, modifiers) == Some(seq![27u8, 91u8, 66u8])) by {
        reveal_strlit("down");
        reveal_strlit("enter");
        assert("down"@.len() != "enter"@.len());
        reveal_strlit("space");
        assert("down"@.len() != "space"@.len());
        reveal_strlit("backspace");
        assert("down"@.len() != "backspace"@.len());
        reveal_strlit("tab");
        assert("down"@.len() != "tab"@.len());
        reveal_strlit("escape");
        assert("down"@.len() != "escape"@.len());
        reveal_strlit("up");
        assert("down"@.len() != "up"@.len());
    }
    assert(keystroke_bytes("right"@, key_char, modifiers) == Some(seq![27u8, 91u8, 67u8])) by {
        reveal_strlit("right");
        reveal_strlit("enter");
        assert("right"@[0] != "enter"@[0]);
        reveal_strlit("space");
        assert("right"@[0] != "space"@[0]);
        reveal_strlit("backspace");
        assert("right"@.len() != "backspace"@.len());
        reveal_strlit("tab");
        assert("right"@.len() != "tab"@.len());
        reveal_strlit("escape");
        assert("right"@.len() != "escape"@.len());
        reveal_strlit("up");
        assert("right"@.len() != "up"@.len());
        reveal_strlit("down");
        assert("right"@.len() != "down"@.len());
    }
    assert(keystroke_bytes("left"@, key_char, modifiers) == Some(seq![27u8, 91u8, 68u8])) by {
        reveal_strlit("left");
        reveal_strlit("enter");
        assert("left"@.len() != "enter"@.len());
        reveal_strlit("space");
        assert("left"@.len() != "space"@.len());
        reveal_strlit("backspace");
        assert("left"@.len() != "backspace"@.len());
        reveal_strlit("tab");
        assert("left"@.len() != "tab"@.len());
        reveal_strlit("escape");
        assert("left"@.len() != "escape"@.len());
        reveal_strlit("up");
        assert("left"@.len() != "up"@.len());
        reveal_strlit("down");
        assert("left"@[0] != "down"@[0]);
        reveal_strlit("right");
        assert("left"@.len() != "right"@.len());
    }
    assert(keystroke_bytes("home"@, key_char, modifiers) == Some(seq![27u8, 91u8, 72u8])) by {
        reveal_strlit("home");
        reveal_strlit("enter");
        assert("home"@.len() != "enter"@.len());
        reveal_strlit("space");
        assert("home"@.len() != "space"@.len());
        reveal_strlit("backspace");
        assert("home"@.len() != "backspace"@.len());
        reveal_strlit("tab");
        assert("home"@.len() != "tab"@.len());
        reveal_strlit("escape");
        assert("home"@.len() != "escape"@.len());
        reveal_strlit("up");
        assert("home"@.len() != "up"@.len());
        reveal_strlit("down");
        assert("home"@[0] != "down"@[0]);
        reveal_strlit("right");
        assert("home"@.len() != "right"@.len());
        reveal_strlit("left");
        assert("home"@[0] != "left"@[0]);
    }
    assert(keystroke_bytes("end"@, key_char, modifiers) == Some(seq![27u8, 91u8, 70u8])) by {
        reveal_strlit("end");
        reveal_strlit("enter");
        assert("end"@.len() != "enter"@.len());
        reveal_strlit("space");
        assert("end"@.len() != "space"@.len());
        reveal_strlit("backspace");
        assert("end"@.len() != "backspace"@.len());
        reveal_strlit("tab");
        assert("end"@[0] != "tab"@[0]);
        reveal_strlit("escape");
        assert("end"@.len() != "escape"@.len());
        reveal_strlit("up");
        assert("end"@.len() != "up"@.len());
        reveal_strlit("down");
        assert("end"@.len() != "down"@.len());
        reveal_strlit("right");
        assert("end"@.len() != "right"@.len());
        reveal_strlit("left");
        assert("end"@.len() != "left"@.len());
        reveal_strlit("home");
        assert("end"@.len() != "home"@.len());
    }
    assert(keystroke_bytes("delete"@, key_char, modifiers) == Some(seq![27u8, 91u8, 51u8, 126u8])) by {
        reveal_strlit("delete");
        reveal_strlit("enter");
        assert("delete"@.len() != "enter"@.len());
        reveal_strlit("space");
        assert("delete"@.len() != "space"@.len());
        reveal_strlit("backspace");
        assert("delete"@.len() != "backspace"@.len());
        reveal_strlit("tab");
        assert("delete"@.len() != "tab"@.len());
        reveal_strlit("escape");
        assert("delete"@[0] != "escape"@[0]);
        reveal_strlit("up");
        assert("delete"@.len() != "up"@.len());
        reveal_strlit("down");
        assert("delete"@.len() != "down"@.len());
        reveal_strlit("right");
        assert("delete"@.len() != "right"@.len());
        reveal_strlit("left");
        assert("delete"@.len() != "left"@.len());
        reveal_strlit("home");
        assert("delete"@.len() != "home"@.len());
        reveal_strlit("end");
        assert("delete"@.len() != "end"@.len());
    }
    assert(keystroke_bytes("insert"@, key_char, modifiers) == Some(seq![27u8, 91u8, 50u8, 126u8])) by {
        reveal_strlit("insert");
        reveal_strlit("enter");
        assert("insert"@.len() != "enter"@.len());
        reveal_strlit("space");
        assert("insert"@.len() != "space"@.len());
        reveal_strlit("backspace");
        assert("insert"@.len() != "backspace"@.len());
        reveal_strlit("tab");
        assert("insert"@.len() != "tab"@.len());
        reveal_strlit("escape");
        assert("insert"@[0] != "escape"@[0]);
        reveal_strlit("up");
        assert("insert"@.len() != "up"@.len());
        reveal_strlit("down");
        assert("insert"@.len() != "down"@.len());
        reveal_strlit("right");
        assert("insert"@.len() != "right"@.len());
        reveal_strlit("left");
        assert("insert"@.len() != "left"@.len());
        reveal_strlit("home");
        assert("insert"@.len() != "home"@.len());
        reveal_strlit("end");
        assert("insert"@.len() != "end"@.len());
        reveal_strlit("delete");
        assert("insert"@[0] != "delete"@[0]);
    }
    assert(keystroke_bytes("pageup"@, key_char, modifiers) == Some(seq![27u8, 91u8, 53u8, 126u8])) by {
        reveal_strlit("pageup");
        reveal_strlit("enter");
        assert("pageup"@.len() != "enter"@.len());
        reveal_strlit("space");
        assert("pageup"@.len() != "space"@.len());
        reveal_strlit("backspace");
        assert("pageup"@.len() != "backspace"@.len());
        reveal_strlit("tab");
        assert("pageup"@.len() != "tab"@.len());
        reveal_strlit("escape");
        assert("pageup"@[0] != "escape"@[0]);
        reveal_strlit("up");
        assert("pageup"@.len() != "up"@.len());
        reveal_strlit("down");
        assert("pageup"@.len() != "down"@.len());
        reveal_strlit("right");
        assert("pageup"@.len() != "right"@.len());
        reveal_strlit("left");
        assert("pageup"@.len() != "left"@.len());
        reveal_strlit("home");
        assert("pageup"@.len() != "home"@.len());
        reveal_strlit("end");
        assert("pageup"@.len() != "end"@.len());
        reveal_strlit("delete");
        assert("pageup"@[0] != "delete"@[0]);
        reveal_strlit("insert");
        assert("pageup"@[0] != "insert"@[0]);
    }
    assert(keystroke_bytes("pagedown"@, key_char, modifiers) == Some(seq![27u8, 91u8, 54u8, 126u8])) by {
        reveal_strlit("pagedown");
        reveal_strlit("enter");
        assert("pagedown"@.len() != "enter"@.len());
        reveal_strlit("space");
        assert("pagedown"@.len() != "space"@.len());
        reveal_strlit("backspace");
        assert("pagedown"@.len() != "backspace"@.len());
        reveal_strlit("tab");
        assert("pagedown"@.len() != "tab"@.len());
        reveal_strlit("escape");
        assert("pagedown"@.len() != "escape"@.len());
        reveal_strlit("up");
        assert("pagedown"@.len() != "up"@.len());
        reveal_strlit("down");
        assert("pagedown"@.len() != "down"@.len());
        reveal_strlit("right");
        assert("pagedown"@.len() != "right"@.len());
        reveal_strlit("left");
        assert("pagedown"@.len() != "left"@.len());
        reveal_strlit("home");
        assert("pagedown"@.len() != "home"@.len());
        reveal_strlit("end");
        assert("pagedown"@.len() != "end"@.len());
        reveal_strlit("delete");
        assert("pagedown"@.len() != "delete"@.len());
        reveal_strlit("insert");
        assert("pagedown"@.len() != "insert"@.len());
        reveal_strlit("pageup");
        assert("pagedown"@.len() != "pageup"@.len());
    }
    let up = seq![27u8, 91u8, 65u8];
    let down = seq![27u8, 91u8, 66u8];
    let right = seq![27u8, 91u8, 67u8];
    let left = seq![27u8, 91u8, 68u8];
    assert(up[2] != down[2] && up[2] != right[2] && up[2] != left[2] && down[2] != right[2] && down[2] != left[2]
        && right[2] != left[2]);
    let arrows = seq!["up"@, "down"@, "right"@, "left"@];
    let sent = seq![up, down, right, left];
    assert forall|i: int| 0 <= i < 4 implies keystroke_bytes(#[trigger] arrows[i], key_char, modifiers) == Some(sent[i]) by {
        if i == 0 {
        } else if i == 1 {
        } else if i == 2 {
        } else {
        }
    }
}

} // verus!
