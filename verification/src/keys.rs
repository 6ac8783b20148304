//! Keyboard and mouse decoding: which key events are gwae's own chords,
//! which belong to the focused pane (and the bytes they become), and what a
//! mouse event inside a pane should do.

use vstd::prelude::*;
use crate::text::{
    ascii_lower, ascii_upper, char_is_ascii_digit, char_is_ascii_lower, char_utf8,
    is_ascii_digit, is_ascii_lower, is_ascii_upper, push_decimal_bytes, decimal_bytes,
    to_ascii_lower, to_ascii_upper,
};

verus! {

/// A modifier key pressed on its own.
#[derive(Debug, Clone, Copy, PartialEq, Eq, Structural)]
pub enum ModifierKey {
    LeftShift,
    LeftControl,
    LeftAlt,
    LeftSuper,
    LeftHyper,
    LeftMeta,
    RightShift,
    RightControl,
    RightAlt,
    RightSuper,
    RightHyper,
    RightMeta,
    IsoLevel3Shift,
    IsoLevel5Shift,
}

/// The key a key event is about.
#[derive(Debug, Clone, Copy, PartialEq, Eq, Structural)]
pub enum KeyCode {
    Backspace,
    Enter,
    Left,
    Right,
    Up,
    Down,
    Home,
    End,
    PageUp,
    PageDown,
    Tab,
    BackTab,
    Delete,
    Insert,
    F(u8),
    Char(char),
    Null,
    Esc,
    CapsLock,
    ScrollLock,
    NumLock,
    PrintScreen,
    Pause,
    Menu,
    KeypadBegin,
    Media,
    Modifier(ModifierKey),
}

/// The modifiers held during a key or mouse event.
#[derive(Debug, Clone, Copy, PartialEq, Eq, Structural)]
pub struct Modifiers {
    pub shift: bool,
    pub control: bool,
    pub alt: bool,
    pub super_key: bool,
    pub hyper: bool,
    pub meta: bool,
}

impl Modifiers {
    /// No modifier held.
    pub fn none() -> (m: Modifiers)
        ensures
            !m.shift && !m.control && !m.alt && !m.super_key && !m.hyper && !m.meta,
    {
        Modifiers { shift: false, control: false, alt: false, super_key: false, hyper: false, meta: false }
    }

    /// Exactly the given shift, control and alt bits.
    pub fn of(shift: bool, control: bool, alt: bool) -> (m: Modifiers)
        ensures
            m.shift == shift && m.control == control && m.alt == alt,
            !m.super_key && !m.hyper && !m.meta,
    {
        Modifiers { shift, control, alt, super_key: false, hyper: false, meta: false }
    }
}

/// A key press: the key, the modifiers, and whether Caps Lock was on.
#[derive(Debug, Clone, Copy, PartialEq, Eq, Structural)]
pub struct KeyEvent {
    pub code: KeyCode,
    pub modifiers: Modifiers,
    pub caps_lock: bool,
}

impl KeyEvent {
    /// A key press with Caps Lock off.
    pub fn new(code: KeyCode, modifiers: Modifiers) -> (ev: KeyEvent)
        ensures
            ev.code == code && ev.modifiers == modifiers && !ev.caps_lock,
    {
        KeyEvent { code, modifiers, caps_lock: false }
    }

    /// A key press with the given Caps Lock state.
    pub fn with_caps_lock(code: KeyCode, modifiers: Modifiers, caps_lock: bool) -> (ev: KeyEvent)
        ensures
            ev.code == code && ev.modifiers == modifiers && ev.caps_lock == caps_lock,
    {
        KeyEvent { code, modifiers, caps_lock }
    }
}

/// A layout verb gwae's chords trigger.
#[derive(Debug, Clone, Copy, PartialEq, Eq, Structural)]
pub enum Action {
    FocusLeft,
    FocusDown,
    FocusUp,
    FocusRight,
    MovePaneLeft,
    MovePaneDown,
    MovePaneUp,
    MovePaneRight,
    NewColumn,
    NewRow,
    SplitBelow,
    CycleWidth,
    ToggleFullWidth,
    KillPane,
    SpawnAgent,
    SpawnAgentRow,
}

/// A decoded keyboard instruction.
#[derive(Debug, Clone, PartialEq, Eq)]
pub enum Cmd {
    Act(Action),
    /// Scroll the strip horizontally by this many cells.
    Scroll(i32),
    /// Scroll the focused pane's content horizontally.
    ScrollPane(i32),
    /// Move the focused pane's scrollback (positive = back into history).
    ScrollBack(i32),
    /// Bytes for the focused pane.
    Input(Vec<u8>),
    /// Focus the next pane that needs the user.
    SmartJump,
    /// Open the theme picker (`0`), or step through it.
    ThemePick(i32),
    /// Open the spawn-directory picker.
    DirPick,
    /// Toggle the cheat-sheet HUD.
    ToggleHud,
    /// Toggle keeping the machine awake for this session.
    ToggleKeepAwake,
    /// One digit of a column jump.
    JumpDigit(u32),
    /// Paste the clipboard into the focused pane.
    Paste,
    /// Copy from the focused pane.
    Copy,
    Quit,
    Nop,
}

/// A decoded instruction, as the contracts speak of it.
pub enum CmdView {
    Act(Action),
    Scroll(i32),
    ScrollPane(i32),
    ScrollBack(i32),
    Input(Seq<u8>),
    SmartJump,
    ThemePick(i32),
    DirPick,
    ToggleHud,
    ToggleKeepAwake,
    JumpDigit(u32),
    Paste,
    Copy,
    Quit,
    Nop,
}

impl View for Cmd {
    type V = CmdView;

    open spec fn view(&self) -> CmdView {
        match self {
            Cmd::Act(a) => CmdView::Act(*a),
            Cmd::Scroll(n) => CmdView::Scroll(*n),
            Cmd::ScrollPane(n) => CmdView::ScrollPane(*n),
            Cmd::ScrollBack(n) => CmdView::ScrollBack(*n),
            Cmd::Input(v) => CmdView::Input(v@),
            Cmd::SmartJump => CmdView::SmartJump,
            Cmd::ThemePick(n) => CmdView::ThemePick(*n),
            Cmd::DirPick => CmdView::DirPick,
            Cmd::ToggleHud => CmdView::ToggleHud,
            Cmd::ToggleKeepAwake => CmdView::ToggleKeepAwake,
            Cmd::JumpDigit(d) => CmdView::JumpDigit(*d),
            Cmd::Paste => CmdView::Paste,
            Cmd::Copy => CmdView::Copy,
            Cmd::Quit => CmdView::Quit,
            Cmd::Nop => CmdView::Nop,
        }
    }
}

/// The view of an optional instruction.
pub open spec fn opt_cmd(c: Option<Cmd>) -> Option<CmdView> {
    match c {
        Some(c) => Some(c@),
        None => None,
    }
}

/// Whether the event is a bare Alt (Option) press or release.
pub fn is_alt_modifier(ev: &KeyEvent) -> (b: bool)
    ensures
        b == (ev.code == KeyCode::Modifier(ModifierKey::LeftAlt)
            || ev.code == KeyCode::Modifier(ModifierKey::RightAlt)),
{
    match ev.code {
        KeyCode::Modifier(ModifierKey::LeftAlt) | KeyCode::Modifier(ModifierKey::RightAlt) => true,
        _ => false,
    }
}

/// Shift as the user pressed it: the Shift bit, or (for terminals that
/// consume Shift into the codepoint) an ASCII capital typed without Caps Lock.
pub open spec fn physically_shifted(ev: KeyEvent) -> bool {
    ev.modifiers.shift || match ev.code {
        KeyCode::Char(c) => is_ascii_upper(c) && !ev.caps_lock,
        _ => false,
    }
}

/// Whether Shift was physically held for this key.
pub fn physical_shift(ev: &KeyEvent) -> (b: bool)
    ensures
        b == physically_shifted(*ev),
{
    if ev.modifiers.shift {
        return true;
    }
    match ev.code {
        KeyCode::Char(c) => crate::text::char_is_ascii_upper(c) && !ev.caps_lock,
        _ => false,
    }
}

/// The case-folded character a key event types, if it types one.
pub open spec fn logical(ev: KeyEvent) -> Option<char> {
    match ev.code {
        KeyCode::Char(c) => Some(ascii_lower(c)),
        _ => None,
    }
}

/// The case-folded character of a key event.
pub fn logical_char(ev: &KeyEvent) -> (r: Option<char>)
    ensures
        r == logical(*ev),
{
    match ev.code {
        KeyCode::Char(c) => Some(to_ascii_lower(c)),
        _ => None,
    }
}

/// The bytes a non-chord key is encoded as, before any Meta prefix.
pub open spec fn base_key_bytes(code: KeyCode, ctrl: bool) -> Seq<u8> {
    match code {
        KeyCode::Char(c) => if ctrl {
            let lc = ascii_lower(c);
            if is_ascii_lower(lc) {
                seq![((lc as u32) - 0x61 + 1) as u8]
            } else {
                seq![0x5eu8, (c as u32) as u8, 0x0a]
            }
        } else {
            vstd::utf8::encode_scalar(c as u32)
        },
        KeyCode::Enter => seq![0x0du8],
        KeyCode::Backspace => seq![0x7fu8],
        KeyCode::Tab => seq![0x09u8],
        KeyCode::Esc => seq![0x1bu8],
        KeyCode::Left => seq![0x1bu8, 0x5b, 0x44],
        KeyCode::Right => seq![0x1bu8, 0x5b, 0x43],
        KeyCode::Up => seq![0x1bu8, 0x5b, 0x41],
        KeyCode::Down => seq![0x1bu8, 0x5b, 0x42],
        KeyCode::Home => seq![0x1bu8, 0x5b, 0x48],
        KeyCode::End => seq![0x1bu8, 0x5b, 0x46],
        KeyCode::PageUp => seq![0x1bu8, 0x5b, 0x35, 0x7e],
        KeyCode::PageDown => seq![0x1bu8, 0x5b, 0x36, 0x7e],
        KeyCode::Delete => seq![0x1bu8, 0x5b, 0x33, 0x7e],
        KeyCode::Insert => seq![0x1bu8, 0x5b, 0x32, 0x7e],
        KeyCode::BackTab => seq![0x1bu8, 0x5b, 0x5a],
        _ => Seq::empty(),
    }
}

/// The bytes a non-chord key event is sent to the pane as: Alt (Option) is
/// Meta, an `ESC` in front of the key's own bytes (except for Esc itself),
/// exactly as a pane sees it outside gwae.
pub open spec fn key_bytes_spec(ev: KeyEvent) -> Seq<u8> {
    let meta = ev.modifiers.alt && ev.code != KeyCode::Esc;
    let prefix = if meta { seq![0x1bu8] } else { Seq::empty() };
    prefix + base_key_bytes(ev.code, ev.modifiers.control)
}

/// Append `bytes` to `out`.
fn push_all(out: &mut Vec<u8>, bytes: &[u8])
    ensures
        final(out)@ == old(out)@ + bytes@,
{
    let mut i: usize = 0;
    while i < bytes.len()
        invariant
            i <= bytes@.len(),
            out@ == old(out)@ + bytes@.take(i as int),
        decreases bytes.len() - i,
    {
        out.push(bytes[i]);
        i = i + 1;
        proof {
            assert(bytes@.take(i as int) == bytes@.take(i - 1).push(bytes@[i - 1]));
        }
    }
    proof {
        assert(bytes@.take(i as int) == bytes@);
    }
}

/// Encode a key event that is not a gwae chord into PTY bytes.
pub fn key_bytes(ev: &KeyEvent) -> (out: Vec<u8>)
    ensures
        out@ == key_bytes_spec(*ev),
{
    let alt = ev.modifiers.alt;
    let ctrl = ev.modifiers.control;
    let mut out: Vec<u8> = Vec::new();
    let meta = alt && !matches!(ev.code, KeyCode::Esc);
    if meta {
        out.push(0x1b);
    }
    let ghost pre = out@;
    match ev.code {
        KeyCode::Char(c) => {
            if ctrl {
                let lc = to_ascii_lower(c);
                if char_is_ascii_lower(lc) {
                    let b: u8 = (lc as u32) as u8;
                    out.push(b - 0x61 + 1);
                } else {
                    out.push(0x5e);
                    out.push((c as u32) as u8);
                    out.push(0x0a);
                }
            } else {
                let enc = char_utf8(c);
                push_all(&mut out, enc.as_slice());
            }
        },
        KeyCode::Enter => out.push(0x0d),
        KeyCode::Backspace => out.push(0x7f),
        KeyCode::Tab => out.push(0x09),
        KeyCode::Esc => out.push(0x1b),
        KeyCode::Left => push_all(&mut out, &[0x1b, 0x5b, 0x44]),
        KeyCode::Right => push_all(&mut out, &[0x1b, 0x5b, 0x43]),
        KeyCode::Up => push_all(&mut out, &[0x1b, 0x5b, 0x41]),
        KeyCode::Down => push_all(&mut out, &[0x1b, 0x5b, 0x42]),
        KeyCode::Home => push_all(&mut out, &[0x1b, 0x5b, 0x48]),
        KeyCode::End => push_all(&mut out, &[0x1b, 0x5b, 0x46]),
        KeyCode::PageUp => push_all(&mut out, &[0x1b, 0x5b, 0x35, 0x7e]),
        KeyCode::PageDown => push_all(&mut out, &[0x1b, 0x5b, 0x36, 0x7e]),
        KeyCode::Delete => push_all(&mut out, &[0x1b, 0x5b, 0x33, 0x7e]),
        KeyCode::Insert => push_all(&mut out, &[0x1b, 0x5b, 0x32, 0x7e]),
        KeyCode::BackTab => push_all(&mut out, &[0x1b, 0x5b, 0x5a]),
        _ => {},
    }
    proof {
        assert(out@ =~= key_bytes_spec(*ev));
    }
    out
}

/// What macOS sends for Option+Shift+key when Option is not mapped to Meta
/// (US layout): `Ó Ô  Ò` move the pane, `¿` toggles the HUD, `Ú` spawns an
/// agent on a new strip.
pub open spec fn option_shift_glyph(c: char) -> Option<CmdView> {
    if c == '\u{d3}' {
        Some(CmdView::Act(Action::MovePaneLeft))
    } else if c == '\u{d4}' {
        Some(CmdView::Act(Action::MovePaneDown))
    } else if c == '\u{f8ff}' {
        Some(CmdView::Act(Action::MovePaneUp))
    } else if c == '\u{d2}' {
        Some(CmdView::Act(Action::MovePaneRight))
    } else if c == '\u{bf}' {
        Some(CmdView::ToggleHud)
    } else if c == '\u{da}' {
        Some(CmdView::Act(Action::SpawnAgentRow))
    } else {
        None
    }
}

/// What macOS sends for Option+key when Option is not mapped to Meta
/// (US layout): `… ˙ ∆ ˚ ¬ œ © ƒ † ∂ ÷ ç √ ∫ ∑` for
/// `; h j k l q g f t d / c v b w`.
pub open spec fn option_glyph(c: char) -> Option<CmdView> {
    if c == '\u{2026}' {
        Some(CmdView::Act(Action::SpawnAgent))
    } else if c == '\u{2d9}' {
        Some(CmdView::Act(Action::FocusLeft))
    } else if c == '\u{2206}' {
        Some(CmdView::Act(Action::FocusDown))
    } else if c == '\u{2da}' {
        Some(CmdView::Act(Action::FocusUp))
    } else if c == '\u{ac}' {
        Some(CmdView::Act(Action::FocusRight))
    } else if c == '\u{153}' {
        Some(CmdView::Act(Action::KillPane))
    } else if c == '\u{a9}' {
        Some(CmdView::SmartJump)
    } else if c == '\u{192}' {
        Some(CmdView::Act(Action::ToggleFullWidth))
    } else if c == '\u{2020}' {
        Some(CmdView::ThemePick(0))
    } else if c == '\u{2202}' {
        Some(CmdView::DirPick)
    } else if c == '\u{f7}' {
        Some(CmdView::ToggleHud)
    } else if c == '\u{e7}' {
        Some(CmdView::Copy)
    } else if c == '\u{221a}' {
        Some(CmdView::Paste)
    } else if c == '\u{222b}' {
        Some(CmdView::Act(Action::SplitBelow))
    } else if c == '\u{2211}' {
        Some(CmdView::ToggleKeepAwake)
    } else {
        None
    }
}

/// `h j k l`: focus moves; with Shift, the focused pane moves.
pub open spec fn is_hjkl(c: char) -> bool {
    c == 'h' || c == 'j' || c == 'k' || c == 'l'
}

/// The verb of an Alt+`h/j/k/l` chord.
pub open spec fn hjkl_action(c: char, shift: bool) -> Action {
    if shift {
        if c == 'h' {
            Action::MovePaneLeft
        } else if c == 'j' {
            Action::MovePaneDown
        } else if c == 'k' {
            Action::MovePaneUp
        } else {
            Action::MovePaneRight
        }
    } else {
        if c == 'h' {
            Action::FocusLeft
        } else if c == 'j' {
            Action::FocusDown
        } else if c == 'k' {
            Action::FocusUp
        } else {
            Action::FocusRight
        }
    }
}

/// The characters whose Alt+Shift chord is still gwae's: `q`, `/`, `?`,
/// `;` and `:`.
pub open spec fn shifted_chord_char(c: char) -> bool {
    c == 'q' || c == '/' || c == '?' || c == ';' || c == ':'
}

/// The value of an ASCII digit.
pub open spec fn digit_value(c: char) -> u32 {
    ((c as u32) - 0x30) as u32
}

/// The unshifted Alt+character chords (and `⌥+Shift+q`, `⌥+Shift+;`).
pub open spec fn alt_char_chord(ev: KeyEvent, c: char, shift: bool) -> Option<CmdView> {
    if c == ';' || c == ':' {
        Some(CmdView::Act(
            if shift || ev.code == KeyCode::Char(':') {
                Action::SpawnAgentRow
            } else {
                Action::SpawnAgent
            },
        ))
    } else if c == 's' || c == 'b' {
        Some(CmdView::Act(Action::SplitBelow))
    } else if c == 'w' {
        Some(CmdView::ToggleKeepAwake)
    } else if c == 'r' || c == 'z' {
        Some(CmdView::Act(Action::CycleWidth))
    } else if c == 'f' {
        Some(CmdView::Act(Action::ToggleFullWidth))
    } else if c == 'q' {
        Some(if shift { CmdView::Quit } else { CmdView::Act(Action::KillPane) })
    } else if c == 'g' {
        Some(CmdView::SmartJump)
    } else if c == 'c' || c == 'y' {
        Some(CmdView::Copy)
    } else if c == 'v' {
        Some(CmdView::Paste)
    } else if c == 't' {
        Some(CmdView::ThemePick(0))
    } else if c == 'd' {
        Some(CmdView::DirPick)
    } else if c == '/' || c == '?' {
        Some(CmdView::ToggleHud)
    } else if is_ascii_digit(c) {
        Some(CmdView::JumpDigit(digit_value(c)))
    } else if c == '[' {
        Some(CmdView::Scroll((-200) as i32))
    } else if c == ']' {
        Some(CmdView::Scroll(200))
    } else {
        None
    }
}

/// The event with a typed character turned to its ASCII capital.
pub open spec fn uppercased(ev: KeyEvent) -> KeyEvent {
    match ev.code {
        KeyCode::Char(raw) => KeyEvent { code: KeyCode::Char(ascii_upper(raw)), ..ev },
        _ => ev,
    }
}

/// Alt chords on keys that type no character (and the leftovers of those
/// that do): Up/Down/PageUp/PageDown scroll back, Left/Right pan the pane,
/// Enter opens a column (Shift: a strip); anything else goes to the pane.
pub open spec fn alt_key_chord(ev: KeyEvent, shift: bool) -> CmdView {
    let code = ev.code;
    if code == KeyCode::Up || code == KeyCode::Down || code == KeyCode::PageUp || code == KeyCode::PageDown {
        let step: i32 = if shift || code == KeyCode::PageUp || code == KeyCode::PageDown { 20 } else { 3 };
        if code == KeyCode::Up || code == KeyCode::PageUp {
            CmdView::ScrollBack(step)
        } else {
            CmdView::ScrollBack((-step) as i32)
        }
    } else if code == KeyCode::Left || code == KeyCode::Right {
        let step: i32 = if shift { 16 } else { 1 };
        if code == KeyCode::Left {
            CmdView::ScrollPane((-step) as i32)
        } else {
            CmdView::ScrollPane(step)
        }
    } else if code == KeyCode::Enter {
        CmdView::Act(if shift { Action::NewRow } else { Action::NewColumn })
    } else {
        match code {
            KeyCode::Char(c) => if is_ascii_digit(c) {
                CmdView::JumpDigit(digit_value(c))
            } else if c == '[' {
                CmdView::Scroll((-200) as i32)
            } else if c == ']' {
                CmdView::Scroll(200)
            } else {
                CmdView::Input(key_bytes_spec(ev))
            },
            _ => CmdView::Input(key_bytes_spec(ev)),
        }
    }
}

/// The instruction a key event stands for.
///
/// A bare modifier is never input. The macOS Option glyphs are chords. A
/// key without Alt belongs to the pane (Esc excepted, which only opens a
/// chord). With Alt: `h/j/k/l` focus (Shift: move), shifted letters other
/// than `q / ? ; :` go to the pane as their capitals, then the chord table,
/// then the non-character keys.
pub open spec fn key_command(ev: KeyEvent) -> Option<CmdView> {
    let alt = ev.modifiers.alt;
    let ctrl = ev.modifiers.control;
    let shift = physically_shifted(ev);
    if ev.code is Modifier {
        Some(CmdView::Nop)
    } else if !alt && !ctrl && (ev.code matches KeyCode::Char(c) && option_shift_glyph(c) is Some) {
        option_shift_glyph(ev.code->Char_0)
    } else if !alt && !ctrl && !shift && (ev.code matches KeyCode::Char(c) && option_glyph(c) is Some) {
        option_glyph(ev.code->Char_0)
    } else if !alt {
        if ev.code == KeyCode::Esc {
            Some(CmdView::Nop)
        } else {
            Some(CmdView::Input(key_bytes_spec(ev)))
        }
    } else {
        match logical(ev) {
            Some(c) => if is_hjkl(c) {
                Some(CmdView::Act(hjkl_action(c, shift)))
            } else if shift && !shifted_chord_char(c) {
                Some(CmdView::Input(key_bytes_spec(uppercased(ev))))
            } else if alt_char_chord(ev, c, shift) is Some {
                alt_char_chord(ev, c, shift)
            } else {
                Some(alt_key_chord(ev, shift))
            },
            None => Some(alt_key_chord(ev, shift)),
        }
    }
}

fn option_shift_glyph_cmd(c: char) -> (r: Option<Cmd>)
    ensures
        opt_cmd(r) == option_shift_glyph(c),
{
    if c == '\u{d3}' {
        Some(Cmd::Act(Action::MovePaneLeft))
    } else if c == '\u{d4}' {
        Some(Cmd::Act(Action::MovePaneDown))
    } else if c == '\u{f8ff}' {
        Some(Cmd::Act(Action::MovePaneUp))
    } else if c == '\u{d2}' {
        Some(Cmd::Act(Action::MovePaneRight))
    } else if c == '\u{bf}' {
        Some(Cmd::ToggleHud)
    } else if c == '\u{da}' {
        Some(Cmd::Act(Action::SpawnAgentRow))
    } else {
        None
    }
}

fn option_glyph_cmd(c: char) -> (r: Option<Cmd>)
    ensures
        opt_cmd(r) == option_glyph(c),
{
    if c == '\u{2026}' {
        Some(Cmd::Act(Action::SpawnAgent))
    } else if c == '\u{2d9}' {
        Some(Cmd::Act(Action::FocusLeft))
    } else if c == '\u{2206}' {
        Some(Cmd::Act(Action::FocusDown))
    } else if c == '\u{2da}' {
        Some(Cmd::Act(Action::FocusUp))
    } else if c == '\u{ac}' {
        Some(Cmd::Act(Action::FocusRight))
    } else if c == '\u{153}' {
        Some(Cmd::Act(Action::KillPane))
    } else if c == '\u{a9}' {
        Some(Cmd::SmartJump)
    } else if c == '\u{192}' {
        Some(Cmd::Act(Action::ToggleFullWidth))
    } else if c == '\u{2020}' {
        Some(Cmd::ThemePick(0))
    } else if c == '\u{2202}' {
        Some(Cmd::DirPick)
    } else if c == '\u{f7}' {
        Some(Cmd::ToggleHud)
    } else if c == '\u{e7}' {
        Some(Cmd::Copy)
    } else if c == '\u{221a}' {
        Some(Cmd::Paste)
    } else if c == '\u{222b}' {
        Some(Cmd::Act(Action::SplitBelow))
    } else if c == '\u{2211}' {
        Some(Cmd::ToggleKeepAwake)
    } else {
        None
    }
}

fn alt_char_chord_cmd(ev: &KeyEvent, c: char, shift: bool) -> (r: Option<Cmd>)
    ensures
        opt_cmd(r) == alt_char_chord(*ev, c, shift),
{
    if c == ';' || c == ':' {
        let colon = match ev.code {
            KeyCode::Char(x) => x == ':',
            _ => false,
        };
        Some(Cmd::Act(if shift || colon { Action::SpawnAgentRow } else { Action::SpawnAgent }))
    } else if c == 's' || c == 'b' {
        Some(Cmd::Act(Action::SplitBelow))
    } else if c == 'w' {
        Some(Cmd::ToggleKeepAwake)
    } else if c == 'r' || c == 'z' {
        Some(Cmd::Act(Action::CycleWidth))
    } else if c == 'f' {
        Some(Cmd::Act(Action::ToggleFullWidth))
    } else if c == 'q' {
        Some(if shift { Cmd::Quit } else { Cmd::Act(Action::KillPane) })
    } else if c == 'g' {
        Some(Cmd::SmartJump)
    } else if c == 'c' || c == 'y' {
        Some(Cmd::Copy)
    } else if c == 'v' {
        Some(Cmd::Paste)
    } else if c == 't' {
        Some(Cmd::ThemePick(0))
    } else if c == 'd' {
        Some(Cmd::DirPick)
    } else if c == '/' || c == '?' {
        Some(Cmd::ToggleHud)
    } else if char_is_ascii_digit(c) {
        Some(Cmd::JumpDigit((c as u32) - 0x30))
    } else if c == '[' {
        Some(Cmd::Scroll(-200))
    } else if c == ']' {
        Some(Cmd::Scroll(200))
    } else {
        None
    }
}

fn alt_key_chord_cmd(ev: &KeyEvent, shift: bool) -> (r: Cmd)
    ensures
        r@ == alt_key_chord(*ev, shift),
{
    let code = ev.code;
    match code {
        KeyCode::Up | KeyCode::Down | KeyCode::PageUp | KeyCode::PageDown => {
            let page = matches!(code, KeyCode::PageUp | KeyCode::PageDown);
            let step: i32 = if shift || page { 20 } else { 3 };
            if matches!(code, KeyCode::Up | KeyCode::PageUp) {
                Cmd::ScrollBack(step)
            } else {
                Cmd::ScrollBack(-step)
            }
        },
        KeyCode::Left => Cmd::ScrollPane(if shift { -16 } else { -1 }),
        KeyCode::Right => Cmd::ScrollPane(if shift { 16 } else { 1 }),
        KeyCode::Enter => Cmd::Act(if shift { Action::NewRow } else { Action::NewColumn }),
        KeyCode::Char(c) => {
            if char_is_ascii_digit(c) {
                Cmd::JumpDigit((c as u32) - 0x30)
            } else if c == '[' {
                Cmd::Scroll(-200)
            } else if c == ']' {
                Cmd::Scroll(200)
            } else {
                Cmd::Input(key_bytes(ev))
            }
        },
        _ => Cmd::Input(key_bytes(ev)),
    }
}

/// Map a key event to a command; `Cmd::Input` when it is a pass-through.
pub fn handle_key(ev: &KeyEvent) -> (r: Option<Cmd>)
    ensures
        opt_cmd(r) == key_command(*ev),
{
    if matches!(ev.code, KeyCode::Modifier(_)) {
        return Some(Cmd::Nop);
    }
    let alt = ev.modifiers.alt;
    let shift = physical_shift(ev);
    let ctrl = ev.modifiers.control;
    if !alt && !ctrl {
        if let KeyCode::Char(c) = ev.code {
            let g = option_shift_glyph_cmd(c);
            if g.is_some() {
                return g;
            }
        }
    }
    if !alt && !ctrl && !shift {
        if let KeyCode::Char(c) = ev.code {
            let g = option_glyph_cmd(c);
            if g.is_some() {
                return g;
            }
        }
    }
    if !alt {
        if matches!(ev.code, KeyCode::Esc) {
            return Some(Cmd::Nop);
        }
        return Some(Cmd::Input(key_bytes(ev)));
    }
    if let Some(c) = logical_char(ev) {
        if c == 'h' || c == 'j' || c == 'k' || c == 'l' {
            let a = if shift {
                if c == 'h' {
                    Action::MovePaneLeft
                } else if c == 'j' {
                    Action::MovePaneDown
                } else if c == 'k' {
                    Action::MovePaneUp
                } else {
                    Action::MovePaneRight
                }
            } else {
                if c == 'h' {
                    Action::FocusLeft
                } else if c == 'j' {
                    Action::FocusDown
                } else if c == 'k' {
                    Action::FocusUp
                } else {
                    Action::FocusRight
                }
            };
            return Some(Cmd::Act(a));
        }
        if shift && !(c == 'q' || c == '/' || c == '?' || c == ';' || c == ':') {
            let mut up = *ev;
            if let KeyCode::Char(raw) = ev.code {
                up.code = KeyCode::Char(to_ascii_upper(raw));
            }
            proof {
                assert(up == uppercased(*ev));
            }
            return Some(Cmd::Input(key_bytes(&up)));
        }
        let chord = alt_char_chord_cmd(ev, c, shift);
        if chord.is_some() {
            return chord;
        }
    }
    Some(alt_key_chord_cmd(ev, shift))
}

/// A mouse button.
#[derive(Debug, Clone, Copy, PartialEq, Eq, Structural)]
pub enum MouseButton {
    Left,
    Right,
    Middle,
}

/// What happened with the mouse.
#[derive(Debug, Clone, Copy, PartialEq, Eq, Structural)]
pub enum MouseEventKind {
    Down(MouseButton),
    Up(MouseButton),
    Drag(MouseButton),
    Moved,
    ScrollDown,
    ScrollUp,
    ScrollLeft,
    ScrollRight,
}

/// A mouse event at a screen cell.
#[derive(Debug, Clone, Copy, PartialEq, Eq, Structural)]
pub struct MouseEvent {
    pub kind: MouseEventKind,
    pub column: u16,
    pub row: u16,
    pub modifiers: Modifiers,
}

/// What a mouse event inside a pane should do.
#[derive(Debug, Clone, Copy, PartialEq, Eq, Structural)]
pub enum MouseRole {
    /// Forward verbatim to the child as an SGR mouse report.
    Forward,
    /// Drive gwae's own drag-to-copy selection.
    Select,
    /// Handled locally, or ignored.
    Local,
}

/// A left press, drag or release: the gestures of a selection.
pub open spec fn is_selecting(kind: MouseEventKind) -> bool {
    kind == MouseEventKind::Down(MouseButton::Left) || kind == MouseEventKind::Drag(MouseButton::Left)
        || kind == MouseEventKind::Up(MouseButton::Left)
}

/// The role of a mouse event: a child that asked for mouse reporting owns
/// it, unless Shift turns a left-button gesture into gwae's selection;
/// otherwise left-button gestures select and everything else is local.
pub open spec fn role_of(kind: MouseEventKind, modifiers: Modifiers, child_wants_mouse: bool) -> MouseRole {
    if child_wants_mouse && !(modifiers.shift && is_selecting(kind)) {
        MouseRole::Forward
    } else if is_selecting(kind) {
        MouseRole::Select
    } else {
        MouseRole::Local
    }
}

/// Decide what a mouse event does inside the pane under the cursor.
pub fn mouse_role(kind: MouseEventKind, modifiers: Modifiers, child_wants_mouse: bool) -> (r: MouseRole)
    ensures
        r == role_of(kind, modifiers, child_wants_mouse),
{
    let shift = modifiers.shift;
    let selecting = matches!(
        kind,
        MouseEventKind::Down(MouseButton::Left) | MouseEventKind::Drag(MouseButton::Left)
            | MouseEventKind::Up(MouseButton::Left)
    );
    if child_wants_mouse && !(shift && selecting) {
        return MouseRole::Forward;
    }
    if selecting {
        MouseRole::Select
    } else {
        MouseRole::Local
    }
}

/// The SGR button number of a button.
pub open spec fn button_code(b: MouseButton) -> nat {
    match b {
        MouseButton::Left => 0,
        MouseButton::Middle => 1,
        MouseButton::Right => 2,
    }
}

/// The SGR (1006) button code of an event, modifiers included: Shift adds
/// 4, Alt 8, Control 16.
pub open spec fn sgr_code(ev: MouseEvent) -> nat {
    let base: nat = match ev.kind {
        MouseEventKind::Down(b) => button_code(b),
        MouseEventKind::Up(b) => button_code(b),
        MouseEventKind::Drag(b) => button_code(b) + 32,
        MouseEventKind::Moved => 35,
        MouseEventKind::ScrollUp => 64,
        MouseEventKind::ScrollDown => 65,
        MouseEventKind::ScrollLeft => 66,
        MouseEventKind::ScrollRight => 67,
    };
    base + (if ev.modifiers.shift { 4nat } else { 0 }) + (if ev.modifiers.alt { 8nat } else { 0 })
        + (if ev.modifiers.control { 16nat } else { 0 })
}

/// `ESC [ < code ; x ; y M` (or a final `m` for a release), with 1-based
/// pane-grid coordinates.
pub open spec fn sgr_report(ev: MouseEvent, gx: u16, gy: u16) -> Seq<u8> {
    let fin: u8 = if ev.kind is Up { 0x6d } else { 0x4d };
    seq![0x1bu8, 0x5b, 0x3c] + decimal_bytes(sgr_code(ev)) + seq![0x3bu8] + decimal_bytes(gx as nat + 1)
        + seq![0x3bu8] + decimal_bytes(gy as nat + 1) + seq![fin]
}

/// Encode a mouse event as an SGR (1006) report for a child that asked for
/// mouse reporting, with coordinates translated into the pane's own grid
/// (1-based, as the protocol requires).
pub fn sgr_mouse_report(ev: &MouseEvent, gx: u16, gy: u16) -> (r: Option<Vec<u8>>)
    ensures
        r is Some,
        r->0@ == sgr_report(*ev, gx, gy),
{
    let (mut code, release): (u64, bool) = match ev.kind {
        MouseEventKind::Down(b) => (button_num(b), false),
        MouseEventKind::Up(b) => (button_num(b), true),
        MouseEventKind::Drag(b) => (button_num(b) + 32, false),
        MouseEventKind::Moved => (35, false),
        MouseEventKind::ScrollUp => (64, false),
        MouseEventKind::ScrollDown => (65, false),
        MouseEventKind::ScrollLeft => (66, false),
        MouseEventKind::ScrollRight => (67, false),
    };
    if ev.modifiers.shift {
        code = code + 4;
    }
    if ev.modifiers.alt {
        code = code + 8;
    }
    if ev.modifiers.control {
        code = code + 16;
    }
    assert(code == sgr_code(*ev));
    let mut out: Vec<u8> = Vec::new();
    out.push(0x1b);
    out.push(0x5b);
    out.push(0x3c);
    let ghost a = out@;
    push_decimal_bytes(&mut out, code);
    let ghost b = out@;
    out.push(0x3b);
    push_decimal_bytes(&mut out, gx as u64 + 1);
    let ghost c = out@;
    out.push(0x3b);
    push_decimal_bytes(&mut out, gy as u64 + 1);
    let ghost d = out@;
    let fin: u8 = if release { 0x6d } else { 0x4d };
    out.push(fin);
    proof {
        assert(a == seq![0x1bu8, 0x5b, 0x3c]);
        assert(b == a + decimal_bytes(sgr_code(*ev)));
        assert(c == b + seq![0x3bu8] + decimal_bytes(gx as nat + 1));
        assert(d == c + seq![0x3bu8] + decimal_bytes(gy as nat + 1));
        assert(out@ == d + seq![fin]);
        assert(fin == (if ev.kind is Up { 0x6du8 } else { 0x4du8 }));
        assert(out@ =~= sgr_report(*ev, gx, gy));
    }
    Some(out)
}

fn button_num(b: MouseButton) -> (n: u64)
    ensures
        n == button_code(b),
{
    match b {
        MouseButton::Left => 0,
        MouseButton::Middle => 1,
        MouseButton::Right => 2,
    }
}

/// The `ESC` that Alt (Meta) puts in front of a key's bytes.
pub open spec fn meta_prefix(m: Modifiers) -> Seq<u8> {
    if m.alt { seq![0x1bu8] } else { Seq::empty() }
}

/// Every named key reaches the pane as its fixed xterm sequence, whatever
/// Control and Caps Lock say, behind an `ESC` when Alt is held: the arrows
/// are `ESC [ A/B/C/D` (up, down, right, left), Home and End `ESC [ H/F`,
/// Page Up/Down `ESC [ 5~/6~`, Delete and Insert `ESC [ 3~/2~`, Back-Tab
/// `ESC [ Z`, Enter a carriage return, Backspace `DEL`, Tab a tab, and Esc
/// a lone `ESC` (never doubled).
pub proof fn named_keys_send_their_xterm_sequences(m: Modifiers, caps: bool)
    ensures
        key_bytes_spec(KeyEvent { code: KeyCode::Up, modifiers: m, caps_lock: caps }) == meta_prefix(m) + seq![
            0x1bu8,
            0x5b,
            0x41,
        ],
        key_bytes_spec(KeyEvent { code: KeyCode::Down, modifiers: m, caps_lock: caps }) == meta_prefix(m) + seq![
            0x1bu8,
            0x5b,
            0x42,
        ],
        key_bytes_spec(KeyEvent { code: KeyCode::Right, modifiers: m, caps_lock: caps }) == meta_prefix(m) + seq![
            0x1bu8,
            0x5b,
            0x43,
        ],
        key_bytes_spec(KeyEvent { code: KeyCode::Left, modifiers: m, caps_lock: caps }) == meta_prefix(m) + seq![
            0x1bu8,
            0x5b,
            0x44,
        ],
        key_bytes_spec(KeyEvent { code: KeyCode::Home, modifiers: m, caps_lock: caps }) == meta_prefix(m) + seq![
            0x1bu8,
            0x5b,
            0x48,
        ],
        key_bytes_spec(KeyEvent { code: KeyCode::End, modifiers: m, caps_lock: caps }) == meta_prefix(m) + seq![
            0x1bu8,
            0x5b,
            0x46,
        ],
        key_bytes_spec(KeyEvent { code: KeyCode::PageUp, modifiers: m, caps_lock: caps }) == meta_prefix(m) + seq![
            0x1bu8,
            0x5b,
            0x35,
            0x7e,
        ],
        key_bytes_spec(KeyEvent { code: KeyCode::PageDown, modifiers: m, caps_lock: caps }) == meta_prefix(m)
            + seq![0x1bu8, 0x5b, 0x36, 0x7e],
        key_bytes_spec(KeyEvent { code: KeyCode::Delete, modifiers: m, caps_lock: caps }) == meta_prefix(m) + seq![
            0x1bu8,
            0x5b,
            0x33,
            0x7e,
        ],
        key_bytes_spec(KeyEvent { code: KeyCode::Insert, modifiers: m, caps_lock: caps }) == meta_prefix(m) + seq![
            0x1bu8,
            0x5b,
            0x32,
            0x7e,
        ],
        key_bytes_spec(KeyEvent { code: KeyCode::BackTab, modifiers: m, caps_lock: caps }) == meta_prefix(m) + seq![
            0x1bu8,
            0x5b,
            0x5a,
        ],
        key_bytes_spec(KeyEvent { code: KeyCode::Enter, modifiers: m, caps_lock: caps }) == meta_prefix(m) + seq![
            0x0du8,
        ],
        key_bytes_spec(KeyEvent { code: KeyCode::Backspace, modifiers: m, caps_lock: caps }) == meta_prefix(m)
            + seq![0x7fu8],
        key_bytes_spec(KeyEvent { code: KeyCode::Tab, modifiers: m, caps_lock: caps }) == meta_prefix(m) + seq![
            0x09u8,
        ],
        key_bytes_spec(KeyEvent { code: KeyCode::Esc, modifiers: m, caps_lock: caps }) == seq![0x1bu8],
{
    assert(meta_prefix(m) + seq![0x1bu8, 0x5b, 0x41] =~= key_bytes_spec(
        KeyEvent { code: KeyCode::Up, modifiers: m, caps_lock: caps },
    ));
    assert(meta_prefix(m) + seq![0x1bu8, 0x5b, 0x42] =~= key_bytes_spec(
        KeyEvent { code: KeyCode::Down, modifiers: m, caps_lock: caps },
    ));
    assert(seq![0x1bu8] =~= Seq::<u8>::empty() + seq![0x1bu8]);
}

/// A typed character reaches the pane as its UTF-8 encoding (behind an
/// `ESC` under Alt), and Control with a letter sends that letter's control
/// code, 1 for `a` through 26 for `z`, whichever case was typed.
pub proof fn typed_characters_send_their_bytes(c: char, m: Modifiers, caps: bool)
    ensures
        !m.control ==> key_bytes_spec(KeyEvent { code: KeyCode::Char(c), modifiers: m, caps_lock: caps })
            == meta_prefix(m) + vstd::utf8::encode_scalar(c as u32),
        m.control && 0x61 <= (c as u32) <= 0x7a ==> key_bytes_spec(
            KeyEvent { code: KeyCode::Char(c), modifiers: m, caps_lock: caps },
        ) == meta_prefix(m) + seq![((c as u32) - 0x60) as u8],
        m.control && 0x41 <= (c as u32) <= 0x5a ==> key_bytes_spec(
            KeyEvent { code: KeyCode::Char(c), modifiers: m, caps_lock: caps },
        ) == meta_prefix(m) + seq![((c as u32) - 0x40) as u8],
{
}

/// Under Alt the arrows scroll instead of reaching the pane: Up moves the
/// focused pane's scrollback back into history and Down forward by the
/// same step (3 lines, 20 with Shift), and Left and Right pan the pane's
/// content in opposite directions by the same step, Right forward (1 cell,
/// 16 with Shift).
pub proof fn alt_arrows_scroll_in_opposite_directions(m: Modifiers, caps: bool)
    requires
        m.alt,
    ensures
        key_command(KeyEvent { code: KeyCode::Up, modifiers: m, caps_lock: caps }) == Some(
            CmdView::ScrollBack(if m.shift { 20i32 } else { 3i32 }),
        ),
        key_command(KeyEvent { code: KeyCode::Down, modifiers: m, caps_lock: caps }) == Some(
            CmdView::ScrollBack(if m.shift { -20i32 } else { -3i32 }),
        ),
        key_command(KeyEvent { code: KeyCode::Right, modifiers: m, caps_lock: caps }) == Some(
            CmdView::ScrollPane(if m.shift { 16i32 } else { 1i32 }),
        ),
        key_command(KeyEvent { code: KeyCode::Left, modifiers: m, caps_lock: caps }) == Some(
            CmdView::ScrollPane(if m.shift { -16i32 } else { -1i32 }),
        ),
        key_command(KeyEvent { code: KeyCode::PageUp, modifiers: m, caps_lock: caps }) == Some(
            CmdView::ScrollBack(20i32),
        ),
        key_command(KeyEvent { code: KeyCode::PageDown, modifiers: m, caps_lock: caps }) == Some(
            CmdView::ScrollBack(-20i32),
        ),
{
}

/// Without Alt the arrows belong to the pane: they are forwarded as their
/// own bytes, never taken as a gwae command.
pub proof fn plain_arrows_reach_the_pane(m: Modifiers, caps: bool)
    requires
        !m.alt,
    ensures
        key_command(KeyEvent { code: KeyCode::Up, modifiers: m, caps_lock: caps }) == Some(
            CmdView::Input(seq![0x1bu8, 0x5b, 0x41]),
        ),
        key_command(KeyEvent { code: KeyCode::Down, modifiers: m, caps_lock: caps }) == Some(
            CmdView::Input(seq![0x1bu8, 0x5b, 0x42]),
        ),
        key_command(KeyEvent { code: KeyCode::Right, modifiers: m, caps_lock: caps }) == Some(
            CmdView::Input(seq![0x1bu8, 0x5b, 0x43]),
        ),
        key_command(KeyEvent { code: KeyCode::Left, modifiers: m, caps_lock: caps }) == Some(
            CmdView::Input(seq![0x1bu8, 0x5b, 0x44]),
        ),
{
    named_keys_send_their_xterm_sequences(m, caps);
    assert(meta_prefix(m) + seq![0x1bu8, 0x5b, 0x41] =~= seq![0x1bu8, 0x5b, 0x41]);
    assert(meta_prefix(m) + seq![0x1bu8, 0x5b, 0x42] =~= seq![0x1bu8, 0x5b, 0x42]);
    assert(meta_prefix(m) + seq![0x1bu8, 0x5b, 0x43] =~= seq![0x1bu8, 0x5b, 0x43]);
    assert(meta_prefix(m) + seq![0x1bu8, 0x5b, 0x44] =~= seq![0x1bu8, 0x5b, 0x44]);
}

/// The SGR (1006) code of a mouse event is the protocol's: the left,
/// middle and right buttons are 0, 1 and 2 (a release reports its
/// button's code, a drag adds 32), plus 4 for Shift, 8 for Alt and 16 for
/// Control; so the three buttons are told apart under any modifiers, and
/// a release ends in `m` where a press ends in `M`.
pub proof fn mouse_reports_use_the_protocol_codes(m: Modifiers, gx: u16, gy: u16)
    ensures
        ({
            let mods: nat = (if m.shift { 4nat } else { 0 }) + (if m.alt { 8nat } else { 0 }) + (if m.control {
                16nat
            } else {
                0
            });
            let ev = |k: MouseEventKind| MouseEvent { kind: k, column: 0, row: 0, modifiers: m };
            &&& sgr_code(ev(MouseEventKind::Down(MouseButton::Left))) == 0 + mods
            &&& sgr_code(ev(MouseEventKind::Down(MouseButton::Middle))) == 1 + mods
            &&& sgr_code(ev(MouseEventKind::Down(MouseButton::Right))) == 2 + mods
            &&& sgr_code(ev(MouseEventKind::Up(MouseButton::Left))) == 0 + mods
            &&& sgr_code(ev(MouseEventKind::Up(MouseButton::Middle))) == 1 + mods
            &&& sgr_code(ev(MouseEventKind::Up(MouseButton::Right))) == 2 + mods
            &&& sgr_code(ev(MouseEventKind::Drag(MouseButton::Left))) == 32 + mods
            &&& sgr_code(ev(MouseEventKind::Drag(MouseButton::Middle))) == 33 + mods
            &&& sgr_code(ev(MouseEventKind::Drag(MouseButton::Right))) == 34 + mods
            &&& sgr_report(ev(MouseEventKind::Up(MouseButton::Middle)), gx, gy).last() == 0x6d
            &&& sgr_report(ev(MouseEventKind::Down(MouseButton::Middle)), gx, gy).last() == 0x4d
        }),
{
}

/// Whether a mouse event is the left button's press, drag or release.
pub open spec fn left_button_event(kind: MouseEventKind) -> bool {
    kind == MouseEventKind::Down(MouseButton::Left) || kind == MouseEventKind::Drag(MouseButton::Left)
        || kind == MouseEventKind::Up(MouseButton::Left)
}

/// A child that asked for mouse reporting gets every mouse event, except
/// that Shift with the left button always selects text instead; a child
/// that did not ask never gets one: the left button selects and anything
/// else stays with gwae.
pub proof fn a_reporting_child_owns_the_mouse_but_shift_selects(kind: MouseEventKind, m: Modifiers, wants: bool)
    ensures
        wants && !(m.shift && left_button_event(kind)) ==> role_of(kind, m, wants) == MouseRole::Forward,
        left_button_event(kind) && (!wants || m.shift) ==> role_of(kind, m, wants) == MouseRole::Select,
        !left_button_event(kind) && !wants ==> role_of(kind, m, wants) == MouseRole::Local,
        !wants ==> role_of(kind, m, wants) != MouseRole::Forward,
{
}

/// The documented chords are bound under Alt whatever Control and Caps
/// Lock say: `h j k l` move focus, `s` and `b` split below, `w` toggles
/// keep-awake, `q` kills the pane, `g` jumps to the pane that needs you,
/// `c` (or `y`) copies and `v` pastes, `t` and `d` open the theme and
/// directory pickers, `/` toggles the key help, `r` cycles the width, `f`
/// toggles full width, `;` spawns an agent, `[` and `]` scroll the strip a
/// screen left and right, a digit starts a column jump, and Enter opens a
/// new column.
pub proof fn the_documented_chords_are_bound(m: Modifiers, caps: bool)
    requires
        m.alt,
        !m.shift,
    ensures
        key_command(KeyEvent { code: KeyCode::Char('h'), modifiers: m, caps_lock: caps }) == Some(CmdView::Act(Action::FocusLeft)),
        key_command(KeyEvent { code: KeyCode::Char('j'), modifiers: m, caps_lock: caps }) == Some(CmdView::Act(Action::FocusDown)),
        key_command(KeyEvent { code: KeyCode::Char('k'), modifiers: m, caps_lock: caps }) == Some(CmdView::Act(Action::FocusUp)),
        key_command(KeyEvent { code: KeyCode::Char('l'), modifiers: m, caps_lock: caps }) == Some(CmdView::Act(Action::FocusRight)),
        key_command(KeyEvent { code: KeyCode::Char('s'), modifiers: m, caps_lock: caps }) == Some(CmdView::Act(Action::SplitBelow)),
        key_command(KeyEvent { code: KeyCode::Char('b'), modifiers: m, caps_lock: caps }) == Some(CmdView::Act(Action::SplitBelow)),
        key_command(KeyEvent { code: KeyCode::Char('w'), modifiers: m, caps_lock: caps }) == Some(CmdView::ToggleKeepAwake),
        key_command(KeyEvent { code: KeyCode::Char('q'), modifiers: m, caps_lock: caps }) == Some(CmdView::Act(Action::KillPane)),
        key_command(KeyEvent { code: KeyCode::Char('g'), modifiers: m, caps_lock: caps }) == Some(CmdView::SmartJump),
        key_command(KeyEvent { code: KeyCode::Char('c'), modifiers: m, caps_lock: caps }) == Some(CmdView::Copy),
        key_command(KeyEvent { code: KeyCode::Char('y'), modifiers: m, caps_lock: caps }) == Some(CmdView::Copy),
        key_command(KeyEvent { code: KeyCode::Char('v'), modifiers: m, caps_lock: caps }) == Some(CmdView::Paste),
        key_command(KeyEvent { code: KeyCode::Char('t'), modifiers: m, caps_lock: caps }) == Some(CmdView::ThemePick(0)),
        key_command(KeyEvent { code: KeyCode::Char('d'), modifiers: m, caps_lock: caps }) == Some(CmdView::DirPick),
        key_command(KeyEvent { code: KeyCode::Char('/'), modifiers: m, caps_lock: caps }) == Some(CmdView::ToggleHud),
        key_command(KeyEvent { code: KeyCode::Char('r'), modifiers: m, caps_lock: caps }) == Some(CmdView::Act(Action::CycleWidth)),
        key_command(KeyEvent { code: KeyCode::Char('f'), modifiers: m, caps_lock: caps }) == Some(CmdView::Act(Action::ToggleFullWidth)),
        key_command(KeyEvent { code: KeyCode::Char(';'), modifiers: m, caps_lock: caps }) == Some(CmdView::Act(Action::SpawnAgent)),
        key_command(KeyEvent { code: KeyCode::Char('['), modifiers: m, caps_lock: caps }) == Some(CmdView::Scroll(-200i32)),
        key_command(KeyEvent { code: KeyCode::Char(']'), modifiers: m, caps_lock: caps }) == Some(CmdView::Scroll(200i32)),
        key_command(KeyEvent { code: KeyCode::Char('1'), modifiers: m, caps_lock: caps }) == Some(CmdView::JumpDigit(1u32)),
        key_command(KeyEvent { code: KeyCode::Char('9'), modifiers: m, caps_lock: caps }) == Some(CmdView::JumpDigit(9u32)),
        key_command(KeyEvent { code: KeyCode::Char('0'), modifiers: m, caps_lock: caps }) == Some(CmdView::JumpDigit(0u32)),
        key_command(KeyEvent { code: KeyCode::Enter, modifiers: m, caps_lock: caps }) == Some(
            CmdView::Act(Action::NewColumn),
        ),
{
}

/// With Shift the same chords turn into their bigger siblings: `H J K L`
/// move the focused pane, `Q` asks to quit gwae, `;` spawns an agent on a
/// new strip, `?` still toggles the key help, and Enter opens a new strip.
pub proof fn the_shifted_chords_are_bound(m: Modifiers, caps: bool)
    requires
        m.alt,
        m.shift,
    ensures
        key_command(KeyEvent { code: KeyCode::Char('h'), modifiers: m, caps_lock: caps }) == Some(CmdView::Act(Action::MovePaneLeft)),
        key_command(KeyEvent { code: KeyCode::Char('j'), modifiers: m, caps_lock: caps }) == Some(CmdView::Act(Action::MovePaneDown)),
        key_command(KeyEvent { code: KeyCode::Char('k'), modifiers: m, caps_lock: caps }) == Some(CmdView::Act(Action::MovePaneUp)),
        key_command(KeyEvent { code: KeyCode::Char('l'), modifiers: m, caps_lock: caps }) == Some(CmdView::Act(Action::MovePaneRight)),
        key_command(KeyEvent { code: KeyCode::Char('q'), modifiers: m, caps_lock: caps }) == Some(CmdView::Quit),
        key_command(KeyEvent { code: KeyCode::Char(';'), modifiers: m, caps_lock: caps }) == Some(CmdView::Act(Action::SpawnAgentRow)),
        key_command(KeyEvent { code: KeyCode::Char('/'), modifiers: m, caps_lock: caps }) == Some(CmdView::ToggleHud),
        key_command(KeyEvent { code: KeyCode::Enter, modifiers: m, caps_lock: caps }) == Some(
            CmdView::Act(Action::NewRow),
        ),
{
}

/// When Option is not mapped to Meta, macOS types a glyph for each Option
/// chord, and each glyph does what its chord does: `˙ ∆ ˚ ¬` move focus,
/// `…` spawns an agent, `œ` kills the pane, `©` smart-jumps, `ƒ` toggles
/// full width, `†` and `∂` open the pickers, `÷` and `¿` toggle the key
/// help, `ç` copies, `√` pastes, `∫` splits below, `∑` toggles keep-awake,
/// `Ó Ô  Ò` move the pane, and `Ú` spawns an agent on a new strip.
pub proof fn option_glyphs_act_as_their_chords(m: Modifiers, caps: bool)
    requires
        !m.alt,
        !m.control,
        !m.shift,
    ensures
        key_command(KeyEvent { code: KeyCode::Char('\u{2d9}'), modifiers: m, caps_lock: caps }) == Some(CmdView::Act(Action::FocusLeft)),
        key_command(KeyEvent { code: KeyCode::Char('\u{2206}'), modifiers: m, caps_lock: caps }) == Some(CmdView::Act(Action::FocusDown)),
        key_command(KeyEvent { code: KeyCode::Char('\u{2da}'), modifiers: m, caps_lock: caps }) == Some(CmdView::Act(Action::FocusUp)),
        key_command(KeyEvent { code: KeyCode::Char('\u{ac}'), modifiers: m, caps_lock: caps }) == Some(CmdView::Act(Action::FocusRight)),
        key_command(KeyEvent { code: KeyCode::Char('\u{2026}'), modifiers: m, caps_lock: caps }) == Some(CmdView::Act(Action::SpawnAgent)),
        key_command(KeyEvent { code: KeyCode::Char('\u{153}'), modifiers: m, caps_lock: caps }) == Some(CmdView::Act(Action::KillPane)),
        key_command(KeyEvent { code: KeyCode::Char('\u{a9}'), modifiers: m, caps_lock: caps }) == Some(CmdView::SmartJump),
        key_command(KeyEvent { code: KeyCode::Char('\u{192}'), modifiers: m, caps_lock: caps }) == Some(CmdView::Act(Action::ToggleFullWidth)),
        key_command(KeyEvent { code: KeyCode::Char('\u{2020}'), modifiers: m, caps_lock: caps }) == Some(CmdView::ThemePick(0)),
        key_command(KeyEvent { code: KeyCode::Char('\u{2202}'), modifiers: m, caps_lock: caps }) == Some(CmdView::DirPick),
        key_command(KeyEvent { code: KeyCode::Char('\u{f7}'), modifiers: m, caps_lock: caps }) == Some(CmdView::ToggleHud),
        key_command(KeyEvent { code: KeyCode::Char('\u{e7}'), modifiers: m, caps_lock: caps }) == Some(CmdView::Copy),
        key_command(KeyEvent { code: KeyCode::Char('\u{221a}'), modifiers: m, caps_lock: caps }) == Some(CmdView::Paste),
        key_command(KeyEvent { code: KeyCode::Char('\u{222b}'), modifiers: m, caps_lock: caps }) == Some(CmdView::Act(Action::SplitBelow)),
        key_command(KeyEvent { code: KeyCode::Char('\u{2211}'), modifiers: m, caps_lock: caps }) == Some(CmdView::ToggleKeepAwake),
        key_command(KeyEvent { code: KeyCode::Char('\u{d3}'), modifiers: m, caps_lock: caps }) == Some(CmdView::Act(Action::MovePaneLeft)),
        key_command(KeyEvent { code: KeyCode::Char('\u{d4}'), modifiers: m, caps_lock: caps }) == Some(CmdView::Act(Action::MovePaneDown)),
        key_command(KeyEvent { code: KeyCode::Char('\u{f8ff}'), modifiers: m, caps_lock: caps }) == Some(CmdView::Act(Action::MovePaneUp)),
        key_command(KeyEvent { code: KeyCode::Char('\u{d2}'), modifiers: m, caps_lock: caps }) == Some(CmdView::Act(Action::MovePaneRight)),
        key_command(KeyEvent { code: KeyCode::Char('\u{bf}'), modifiers: m, caps_lock: caps }) == Some(CmdView::ToggleHud),
        key_command(KeyEvent { code: KeyCode::Char('\u{da}'), modifiers: m, caps_lock: caps }) == Some(CmdView::Act(Action::SpawnAgentRow)),
{
}

} // verus!
