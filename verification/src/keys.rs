//! Keyboard input and the command each key press stands for.

use vstd::prelude::*;

verus! {

/// The key of a key press.
#[derive(Clone, Copy, PartialEq, Eq, Structural, Debug)]
pub enum KeyCode {
    Esc,
    Up,
    Down,
    Enter,
    Backspace,
    Char(char),
    /// Any other key.
    Other,
}

/// The modifier keys held during a key press.
#[derive(Clone, Copy, PartialEq, Eq, Structural, Debug)]
pub struct Modifiers {
    pub shift: bool,
    pub control: bool,
    pub alt: bool,
    pub super_key: bool,
    pub hyper: bool,
    pub meta: bool,
}

/// A key press.
#[derive(Clone, Copy, PartialEq, Eq, Structural, Debug)]
pub struct KeyInput {
    pub code: KeyCode,
    pub modifiers: Modifiers,
}

/// What a key press asks the finder to do.
#[derive(Clone, Copy, PartialEq, Eq, Structural, Debug)]
pub enum Command {
    Quit,
    SelectPrevious,
    SelectNext,
    CopyFile,
    CopyLocation,
    DeleteCharacter,
    DeletePreviousWord,
    Append(char),
    Nothing,
}

/// No modifier is held.
pub open spec fn no_modifiers(m: Modifiers) -> bool {
    !m.shift && !m.control && !m.alt && !m.super_key && !m.hyper && !m.meta
}

/// Only the modifier `shift` is held.
pub open spec fn only_shift(m: Modifiers) -> bool {
    m.shift && !m.control && !m.alt && !m.super_key && !m.hyper && !m.meta
}

/// Only the modifier `control` is held.
pub open spec fn only_control(m: Modifiers) -> bool {
    !m.shift && m.control && !m.alt && !m.super_key && !m.hyper && !m.meta
}

/// The command of a key press: Esc or a bare `q` quits; Up or Ctrl-P and
/// Down or Ctrl-N move the selection; Enter copies the file; a bare `y` copies
/// the location; Backspace deletes a character and Ctrl-W a word; any other
/// character typed bare or with Shift goes into the query.
pub open spec fn command_of(key: KeyInput) -> Command {
    let m = key.modifiers;
    match key.code {
        KeyCode::Esc => Command::Quit,
        KeyCode::Up => Command::SelectPrevious,
        KeyCode::Down => Command::SelectNext,
        KeyCode::Enter => Command::CopyFile,
        KeyCode::Backspace => Command::DeleteCharacter,
        KeyCode::Char(c) => if c == 'q' && no_modifiers(m) {
            Command::Quit
        } else if c == 'p' && only_control(m) {
            Command::SelectPrevious
        } else if c == 'n' && only_control(m) {
            Command::SelectNext
        } else if c == 'y' && no_modifiers(m) {
            Command::CopyLocation
        } else if c == 'w' && only_control(m) {
            Command::DeletePreviousWord
        } else if no_modifiers(m) || only_shift(m) {
            Command::Append(c)
        } else {
            Command::Nothing
        },
        KeyCode::Other => Command::Nothing,
    }
}

fn is_unmodified(m: &Modifiers) -> (res: bool)
    ensures
        res == no_modifiers(*m),
{
    !m.shift && !m.control && !m.alt && !m.super_key && !m.hyper && !m.meta
}

fn is_shift_only(m: &Modifiers) -> (res: bool)
    ensures
        res == only_shift(*m),
{
    m.shift && !m.control && !m.alt && !m.super_key && !m.hyper && !m.meta
}

fn is_control_only(m: &Modifiers) -> (res: bool)
    ensures
        res == only_control(*m),
{
    !m.shift && m.control && !m.alt && !m.super_key && !m.hyper && !m.meta
}

/// The command of the key press `key`.
pub fn key_command(key: &KeyInput) -> (command: Command)
    ensures
        command == command_of(*key),
{
    let m = &key.modifiers;
    match key.code {
        KeyCode::Esc => Command::Quit,
        KeyCode::Up => Command::SelectPrevious,
        KeyCode::Down => Command::SelectNext,
        KeyCode::Enter => Command::CopyFile,
        KeyCode::Backspace => Command::DeleteCharacter,
        KeyCode::Char(c) => {
            if c == 'q' && is_unmodified(m) {
                Command::Quit
            } else if c == 'p' && is_control_only(m) {
                Command::SelectPrevious
            } else if c == 'n' && is_control_only(m) {
                Command::SelectNext
            } else if c == 'y' && is_unmodified(m) {
                Command::CopyLocation
            } else if c == 'w' && is_control_only(m) {
                Command::DeletePreviousWord
            } else if is_unmodified(m) || is_shift_only(m) {
                Command::Append(c)
            } else {
                Command::Nothing
            }
        },
        KeyCode::Other => Command::Nothing,
    }
}

/// Typing searches: a character typed with Shift alone always goes into the
/// query, and so does one typed without modifiers unless it is `q` (quit) or
/// `y` (copy the location). Only Ctrl-P, Ctrl-N and Ctrl-W move the selection
/// or delete a word.
pub proof fn law_typed_characters_go_into_the_query(c: char, m: Modifiers)
    ensures
        only_shift(m) ==> command_of(KeyInput { code: KeyCode::Char(c), modifiers: m })
            == Command::Append(c),
        no_modifiers(m) && c != 'q' && c != 'y' ==> command_of(
            KeyInput { code: KeyCode::Char(c), modifiers: m },
        ) == Command::Append(c),
        no_modifiers(m) && c == 'q' ==> command_of(
            KeyInput { code: KeyCode::Char(c), modifiers: m },
        ) == Command::Quit,
        no_modifiers(m) && c == 'y' ==> command_of(
            KeyInput { code: KeyCode::Char(c), modifiers: m },
        ) == Command::CopyLocation,
        command_of(KeyInput { code: KeyCode::Char(c), modifiers: m }) == Command::SelectPrevious
            <==> c == 'p' && only_control(m),
        command_of(KeyInput { code: KeyCode::Char(c), modifiers: m }) == Command::SelectNext
            <==> c == 'n' && only_control(m),
        command_of(KeyInput { code: KeyCode::Char(c), modifiers: m })
            == Command::DeletePreviousWord <==> c == 'w' && only_control(m),
{
}

} // verus!
