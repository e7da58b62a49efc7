//! The key bindings: which command a key press means, while browsing and
//! while the username box is open.
use vstd::prelude::*;

verus! {

/// A key press, as far as the bindings tell keys apart.
#[derive(Debug, Clone, Copy, PartialEq, Eq, Structural)]
pub enum Key {
    Char(char),
    Enter,
    Esc,
    Backspace,
    Left,
    Right,
    Up,
    Down,
    Home,
    End,
    PageUp,
    PageDown,
    Other,
}

/// What a key press asks of the monitor.
#[derive(Debug, Clone, Copy, PartialEq, Eq, Structural)]
pub enum Command {
    Quit,
    PrevTab,
    NextTab,
    ScrollUp,
    ScrollDown,
    ScrollTop,
    ScrollBottom,
    PageUp,
    PageDown,
    NextJob,
    PrevJob,
    ToggleArray,
    ToggleQueued,
    ToggleRunning,
    ToggleCompact,
    BeginInput,
    Refresh,
    ConfirmInput,
    CancelInput,
    Backspace,
    Type(char),
    Nothing,
}

/// The bindings. Ctrl-C always quits. While the username box is open
/// (`typing`), keys edit it: Enter confirms, Esc cancels, Backspace deletes,
/// a character is typed. Otherwise: Esc quits; Left/Right switch tabs;
/// Up/k, Down/j, g/Home, G/End scroll; PgUp/PgDn page; '.' and ',' switch
/// the running job; a, q, r toggle the array, queued and running sections;
/// e and c toggle array compaction; u opens the box; Ctrl-R refreshes.
pub open spec fn binding(key: Key, ctrl: bool, typing: bool) -> Command {
    if ctrl && key == Key::Char('c') {
        Command::Quit
    } else if typing {
        match key {
            Key::Enter => Command::ConfirmInput,
            Key::Esc => Command::CancelInput,
            Key::Backspace => Command::Backspace,
            Key::Char(c) => Command::Type(c),
            _ => Command::Nothing,
        }
    } else {
        match key {
            Key::Esc => Command::Quit,
            Key::Left => Command::PrevTab,
            Key::Right => Command::NextTab,
            Key::Up => Command::ScrollUp,
            Key::Down => Command::ScrollDown,
            Key::Home => Command::ScrollTop,
            Key::End => Command::ScrollBottom,
            Key::PageDown => Command::PageDown,
            Key::PageUp => Command::PageUp,
            Key::Char(c) => if c == 'k' {
                Command::ScrollUp
            } else if c == 'j' {
                Command::ScrollDown
            } else if c == 'g' {
                Command::ScrollTop
            } else if c == 'G' {
                Command::ScrollBottom
            } else if c == '.' {
                Command::NextJob
            } else if c == ',' {
                Command::PrevJob
            } else if c == 'a' {
                Command::ToggleArray
            } else if c == 'q' {
                Command::ToggleQueued
            } else if c == 'r' {
                if ctrl {
                    Command::Refresh
                } else {
                    Command::ToggleRunning
                }
            } else if c == 'e' || c == 'c' {
                Command::ToggleCompact
            } else if c == 'u' {
                Command::BeginInput
            } else {
                Command::Nothing
            },
            _ => Command::Nothing,
        }
    }
}

/// The jump keys, outside the username box and whatever Ctrl says: End and
/// `G` both jump to the bottom, Home and `g` both to the top, and the two
/// ends are different commands; while typing, End and Home do nothing and
/// `G` and `g` are typed.
pub proof fn law_end_and_home_jump_to_the_ends(ctrl: bool)
    ensures
        binding(Key::End, ctrl, false) == Command::ScrollBottom,
        binding(Key::Char('G'), ctrl, false) == binding(Key::End, ctrl, false),
        binding(Key::Home, ctrl, false) == Command::ScrollTop,
        binding(Key::Char('g'), ctrl, false) == binding(Key::Home, ctrl, false),
        binding(Key::End, ctrl, false) != binding(Key::Home, ctrl, false),
        binding(Key::End, ctrl, true) == Command::Nothing,
        binding(Key::Home, ctrl, true) == Command::Nothing,
        binding(Key::Char('G'), ctrl, true) == Command::Type('G'),
        binding(Key::Char('g'), ctrl, true) == Command::Type('g'),
{
}

/// The command a key press means (see [`binding`]).
pub fn command_for(key: Key, ctrl: bool, typing: bool) -> (c: Command)
    ensures
        c == binding(key, ctrl, typing),
{
    if ctrl && key == Key::Char('c') {
        return Command::Quit;
    }
    if typing {
        return match key {
            Key::Enter => Command::ConfirmInput,
            Key::Esc => Command::CancelInput,
            Key::Backspace => Command::Backspace,
            Key::Char(c) => Command::Type(c),
            _ => Command::Nothing,
        };
    }
    match key {
        Key::Esc => Command::Quit,
        Key::Left => Command::PrevTab,
        Key::Right => Command::NextTab,
        Key::Up | Key::Char('k') => Command::ScrollUp,
        Key::Down | Key::Char('j') => Command::ScrollDown,
        Key::Home | Key::Char('g') => Command::ScrollTop,
        Key::End | Key::Char('G') => Command::ScrollBottom,
        Key::PageDown => Command::PageDown,
        Key::PageUp => Command::PageUp,
        Key::Char('.') => Command::NextJob,
        Key::Char(',') => Command::PrevJob,
        Key::Char('a') => Command::ToggleArray,
        Key::Char('q') => Command::ToggleQueued,
        Key::Char('r') => if ctrl {
            Command::Refresh
        } else {
            Command::ToggleRunning
        },
        Key::Char('e') | Key::Char('c') => Command::ToggleCompact,
        Key::Char('u') => Command::BeginInput,
        _ => Command::Nothing,
    }
}

} // verus!
