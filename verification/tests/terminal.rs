use devhub::keys::{paste_text, terminal_input_bytes, terminal_key_action, Keystroke, Modifiers, TerminalKeyAction};
use devhub::termcolor::rgb_color;
use devhub::terminal::{TermColor, TerminalState};

/// Hands what the escape-sequence parser recognises to the terminal state.
struct Feed<'a>(&'a mut TerminalState);

impl vte::Perform for Feed<'_> {
    fn print(&mut self, c: char) {
        self.0.print(c);
    }

    fn execute(&mut self, byte: u8) {
        self.0.execute(byte);
    }

    fn csi_dispatch(&mut self, params: &vte::Params, _intermediates: &[u8], _ignore: bool, action: char) {
        let params: Vec<Vec<u16>> = params.iter().map(|param| param.to_vec()).collect();
        self.0.csi_dispatch(&params, action);
    }
}

fn advance(state: &mut TerminalState, bytes: &[u8]) {
    let mut parser = vte::Parser::new();
    parser.advance(&mut Feed(state), bytes);
}

fn no_modifiers() -> Modifiers {
    Modifiers {
        control: false,
        alt: false,
        shift: false,
        platform: false,
        function: false,
    }
}

fn key(name: &str, key_char: Option<&str>, modifiers: Modifiers) -> Keystroke {
    Keystroke {
        key: name.to_string(),
        key_char: key_char.map(str::to_string),
        modifiers,
    }
}

#[test]
fn parser_writes_visible_terminal_cells() {
    let mut state = TerminalState::new(12, 3, true);

    advance(&mut state, b"hello");

    let visible = state.screen()[0].iter().map(|cell| cell.ch).collect::<String>();
    assert!(visible.starts_with("hello"));
    assert_eq!(state.cursor().1, 5);
}

#[test]
fn parser_preserves_terminal_colors_and_text_attributes() {
    let mut state = TerminalState::new(12, 3, true);

    advance(
        &mut state,
        b"\x1b[38;2;12;34;56;2;3;4;7;9mA\x1b[0mB\x1b[38:2:78:90:123mC",
    );

    let styled = &state.screen()[0][0];
    assert_eq!(styled.fg, TermColor::DefaultBg);
    assert!(styled.fg_dimmed);
    assert_eq!(styled.bg, rgb_color(12, 34, 56));
    assert!(styled.italic);
    assert!(styled.underline);
    assert!(styled.strikethrough);

    let reset = &state.screen()[0][1];
    assert_eq!(reset.fg, TermColor::DefaultFg);
    assert!(!reset.fg_dimmed);
    assert_eq!(reset.bg, TermColor::DefaultBg);

    let colon_truecolor = &state.screen()[0][2];
    assert_eq!(colon_truecolor.fg, rgb_color(78, 90, 123));
}

#[test]
fn zero_cursor_coordinates_home_the_terminal() {
    let mut state = TerminalState::new(12, 3, true);
    state.move_cursor(2, 8);

    advance(&mut state, b"\x1b[0;0H");

    assert_eq!(state.cursor(), (0, 0));
}

#[test]
fn terminal_keys_encode_for_the_pty() {
    let enter = key("enter", None, no_modifiers());
    let space = key("space", Some(" "), no_modifiers());
    let interrupt = key(
        "c",
        None,
        Modifiers {
            control: true,
            ..no_modifiers()
        },
    );
    let alt = key(
        "x",
        None,
        Modifiers {
            alt: true,
            ..no_modifiers()
        },
    );

    assert_eq!(terminal_input_bytes(&enter), Some(b"\r".to_vec()));
    assert_eq!(terminal_input_bytes(&space), Some(b" ".to_vec()));
    assert_eq!(terminal_input_bytes(&interrupt), Some(vec![3]));
    assert_eq!(terminal_input_bytes(&alt), Some(b"\x1bx".to_vec()));
}

#[test]
fn text_wraps_and_scrolls_into_the_scrollback() {
    let mut state = TerminalState::new(4, 2, true);
    advance(&mut state, b"abcdefghij");
    let row = |state: &TerminalState, r: usize| state.screen()[r].iter().map(|c| c.ch).collect::<String>();
    assert_eq!(state.scrollback().len(), 1);
    assert_eq!(state.scrollback()[0].iter().map(|c| c.ch).collect::<String>(), "abcd");
    assert_eq!(row(&state, 0), "efgh");
    assert_eq!(row(&state, 1), "ij  ");
    assert_eq!(state.cursor(), (1, 2));
}

#[test]
fn cursor_reports_answer_the_position() {
    let mut state = TerminalState::new(10, 5, true);
    advance(&mut state, b"\x1b[3;4H\x1b[6n\x1b[5n\x1b[c");
    assert_eq!(
        state.take_responses(),
        vec![b"\x1b[3;4R".to_vec(), b"\x1b[0n".to_vec(), b"\x1b[?1;2c".to_vec()]
    );
    assert!(state.take_responses().is_empty());
}

#[test]
fn erase_in_line_and_display_blank_cells() {
    let mut state = TerminalState::new(5, 2, true);
    advance(&mut state, b"abcde\r\nfghij\x1b[1;3H\x1b[K");
    let row = |state: &TerminalState, r: usize| state.screen()[r].iter().map(|c| c.ch).collect::<String>();
    assert_eq!(row(&state, 0), "ab   ");
    assert_eq!(row(&state, 1), "fghij");
    advance(&mut state, b"\x1b[2J");
    assert_eq!(row(&state, 0), "     ");
    assert_eq!(row(&state, 1), "     ");
}

#[test]
fn saved_cursor_is_restored() {
    let mut state = TerminalState::new(10, 5, true);
    advance(&mut state, b"\x1b[2;3H\x1b[s\x1b[5;9H\x1b[u");
    assert_eq!(state.cursor(), (1, 2));
}

#[test]
fn resizing_keeps_the_cursor_on_screen() {
    let mut state = TerminalState::new(10, 5, true);
    advance(&mut state, b"\x1b[5;10Hx");
    state.resize(4, 2);
    assert_eq!(state.size().0, 4);
    assert_eq!(state.size().1, 2);
    assert!(state.cursor().0 < 2);
    assert!(state.cursor().1 <= 4);
    assert!(state.screen().iter().all(|row| row.len() == 4));
}

#[test]
fn terminal_keys_paste_pass_through_or_send() {
    let mods = |control: bool, shift: bool, platform: bool| Modifiers { control, alt: false, shift, platform, function: false };
    assert_eq!(terminal_key_action(&key("`", None, mods(true, false, false))), TerminalKeyAction::PassThrough);
    assert_eq!(terminal_key_action(&key("v", None, mods(true, true, false))), TerminalKeyAction::Paste);
    assert_eq!(terminal_key_action(&key("v", Some("v"), mods(false, false, true))), TerminalKeyAction::Paste);
    assert_eq!(terminal_key_action(&key("enter", None, mods(false, false, false))), TerminalKeyAction::Send(vec![13]));
    assert_eq!(terminal_key_action(&key("c", Some("c"), mods(true, false, false))), TerminalKeyAction::Send(vec![3]));
    assert_eq!(terminal_key_action(&key("a", Some("a"), mods(false, false, true))), TerminalKeyAction::Ignore);
    let sent: String = paste_text("one\r\ntwo\nthree\r").into_iter().collect();
    assert_eq!(sent, "one\rtwo\rthree\r");
}
