//! The values of the hotkey dispatcher: bindings, key combinations and the
//! fixed table of key names.

use vstd::prelude::*;
use crate::text::{chars_of, is_literal};

verus! {

/// The persisted hotkey configuration: a list of bindings.
#[derive(Debug, Clone, Default)]
pub struct HotkeyConfig {
    pub hotkeys: Vec<HotkeyBinding>,
}

/// One binding of a key combination to an action of a plugin.
#[derive(Debug, Clone)]
pub struct HotkeyBinding {
    pub id: String,
    pub key: String,
    pub plugin_id: String,
    pub action: String,
    pub enabled: bool,
}

/// What a hotkey triggers: an action of a plugin.
#[derive(Debug, Clone)]
pub struct HotkeyAction {
    pub plugin_id: String,
    pub action: String,
}

/// How to run a plugin's script: the program, an optional flag that goes
/// before the script, and the script's path.
#[derive(Debug, Clone)]
pub struct ScriptInfo {
    pub shell: &'static str,
    pub flag: Option<&'static str>,
    pub path: String,
}

/// The modifier keys of a combination.
#[derive(Debug, Clone, Copy, PartialEq, Eq, Structural)]
pub struct ModifierSet {
    pub ctrl: bool,
    pub alt: bool,
    pub shift: bool,
    pub meta: bool,
}

/// A key combination: modifiers and one base key.
#[derive(Debug, Clone, Copy, PartialEq, Eq, Structural)]
pub struct KeyCombo {
    pub mods: ModifierSet,
    pub key: KeyCode,
}

/// The base keys that a binding can name.
#[derive(Debug, Clone, Copy, PartialEq, Eq, Structural)]
pub enum KeyCode {
    KeyA,
    KeyB,
    KeyC,
    KeyD,
    KeyE,
    KeyF,
    KeyG,
    KeyH,
    KeyI,
    KeyJ,
    KeyK,
    KeyL,
    KeyM,
    KeyN,
    KeyO,
    KeyP,
    KeyQ,
    KeyR,
    KeyS,
    KeyT,
    KeyU,
    KeyV,
    KeyW,
    KeyX,
    KeyY,
    KeyZ,
    Digit0,
    Digit1,
    Digit2,
    Digit3,
    Digit4,
    Digit5,
    Digit6,
    Digit7,
    Digit8,
    Digit9,
    F1,
    F2,
    F3,
    F4,
    F5,
    F6,
    F7,
    F8,
    F9,
    F10,
    F11,
    F12,
    Space,
    Enter,
    Escape,
    Tab,
    Backspace,
    Delete,
    Insert,
    Home,
    End,
    PageUp,
    PageDown,
    ArrowUp,
    ArrowDown,
    ArrowLeft,
    ArrowRight,
    PrintScreen,
    Pause,
}

impl ModifierSet {
    /// No modifier.
    pub open spec fn empty() -> ModifierSet {
        ModifierSet { ctrl: false, alt: false, shift: false, meta: false }
    }

    /// No modifier.
    pub fn none() -> (r: ModifierSet)
        ensures
            r == ModifierSet::empty(),
    {
        ModifierSet { ctrl: false, alt: false, shift: false, meta: false }
    }
}

/// The key that the table lists under `name`. Names are lower-case; a name
/// that the table does not list is no key.
pub open spec fn key_named(name: Seq<char>) -> Option<KeyCode> {
    if name == "a"@ {
        Some(KeyCode::KeyA)
    }     else if name == "b"@ {
        Some(KeyCode::KeyB)
    }     else if name == "c"@ {
        Some(KeyCode::KeyC)
    }     else if name == "d"@ {
        Some(KeyCode::KeyD)
    }     else if name == "e"@ {
        Some(KeyCode::KeyE)
    }     else if name == "f"@ {
        Some(KeyCode::KeyF)
    }     else if name == "g"@ {
        Some(KeyCode::KeyG)
    }     else if name == "h"@ {
        Some(KeyCode::KeyH)
    }     else if name == "i"@ {
        Some(KeyCode::KeyI)
    }     else if name == "j"@ {
        Some(KeyCode::KeyJ)
    }     else if name == "k"@ {
        Some(KeyCode::KeyK)
    }     else if name == "l"@ {
        Some(KeyCode::KeyL)
    }     else if name == "m"@ {
        Some(KeyCode::KeyM)
    }     else if name == "n"@ {
        Some(KeyCode::KeyN)
    }     else if name == "o"@ {
        Some(KeyCode::KeyO)
    }     else if name == "p"@ {
        Some(KeyCode::KeyP)
    }     else if name == "q"@ {
        Some(KeyCode::KeyQ)
    }     else if name == "r"@ {
        Some(KeyCode::KeyR)
    }     else if name == "s"@ {
        Some(KeyCode::KeyS)
    }     else if name == "t"@ {
        Some(KeyCode::KeyT)
    }     else if name == "u"@ {
        Some(KeyCode::KeyU)
    }     else if name == "v"@ {
        Some(KeyCode::KeyV)
    }     else if name == "w"@ {
        Some(KeyCode::KeyW)
    }     else if name == "x"@ {
        Some(KeyCode::KeyX)
    }     else if name == "y"@ {
        Some(KeyCode::KeyY)
    }     else if name == "z"@ {
        Some(KeyCode::KeyZ)
    }     else if name == "0"@ {
        Some(KeyCode::Digit0)
    }     else if name == "1"@ {
        Some(KeyCode::Digit1)
    }     else if name == "2"@ {
        Some(KeyCode::Digit2)
    }     else if name == "3"@ {
        Some(KeyCode::Digit3)
    }     else if name == "4"@ {
        Some(KeyCode::Digit4)
    }     else if name == "5"@ {
        Some(KeyCode::Digit5)
    }     else if name == "6"@ {
        Some(KeyCode::Digit6)
    }     else if name == "7"@ {
        Some(KeyCode::Digit7)
    }     else if name == "8"@ {
        Some(KeyCode::Digit8)
    }     else if name == "9"@ {
        Some(KeyCode::Digit9)
    }     else if name == "f1"@ {
        Some(KeyCode::F1)
    }     else if name == "f2"@ {
        Some(KeyCode::F2)
    }     else if name == "f3"@ {
        Some(KeyCode::F3)
    }     else if name == "f4"@ {
        Some(KeyCode::F4)
    }     else if name == "f5"@ {
        Some(KeyCode::F5)
    }     else if name == "f6"@ {
        Some(KeyCode::F6)
    }     else if name == "f7"@ {
        Some(KeyCode::F7)
    }     else if name == "f8"@ {
        Some(KeyCode::F8)
    }     else if name == "f9"@ {
        Some(KeyCode::F9)
    }     else if name == "f10"@ {
        Some(KeyCode::F10)
    }     else if name == "f11"@ {
        Some(KeyCode::F11)
    }     else if name == "f12"@ {
        Some(KeyCode::F12)
    }     else if name == "space"@ {
        Some(KeyCode::Space)
    }     else if name == "enter"@ {
        Some(KeyCode::Enter)
    }     else if name == "return"@ {
        Some(KeyCode::Enter)
    }     else if name == "escape"@ {
        Some(KeyCode::Escape)
    }     else if name == "esc"@ {
        Some(KeyCode::Escape)
    }     else if name == "tab"@ {
        Some(KeyCode::Tab)
    }     else if name == "backspace"@ {
        Some(KeyCode::Backspace)
    }     else if name == "delete"@ {
        Some(KeyCode::Delete)
    }     else if name == "del"@ {
        Some(KeyCode::Delete)
    }     else if name == "insert"@ {
        Some(KeyCode::Insert)
    }     else if name == "ins"@ {
        Some(KeyCode::Insert)
    }     else if name == "home"@ {
        Some(KeyCode::Home)
    }     else if name == "end"@ {
        Some(KeyCode::End)
    }     else if name == "pageup"@ {
        Some(KeyCode::PageUp)
    }     else if name == "pgup"@ {
        Some(KeyCode::PageUp)
    }     else if name == "pagedown"@ {
        Some(KeyCode::PageDown)
    }     else if name == "pgdn"@ {
        Some(KeyCode::PageDown)
    }     else if name == "up"@ {
        Some(KeyCode::ArrowUp)
    }     else if name == "down"@ {
        Some(KeyCode::ArrowDown)
    }     else if name == "left"@ {
        Some(KeyCode::ArrowLeft)
    }     else if name == "right"@ {
        Some(KeyCode::ArrowRight)
    }     else if name == "printscreen"@ {
        Some(KeyCode::PrintScreen)
    }     else if name == "print"@ {
        Some(KeyCode::PrintScreen)
    }     else if name == "prtsc"@ {
        Some(KeyCode::PrintScreen)
    }     else if name == "pause"@ {
        Some(KeyCode::Pause)
    } else {
        None
    }
}

/// Looks `name` up in the table of key names.
pub fn key_code_for(name: &str) -> (r: Option<KeyCode>)
    ensures
        r == key_named(name@),
{
    let v = chars_of(name);
    if is_literal(&v, "a") {
        Some(KeyCode::KeyA)
    }     else if is_literal(&v, "b") {
        Some(KeyCode::KeyB)
    }     else if is_literal(&v, "c") {
        Some(KeyCode::KeyC)
    }     else if is_literal(&v, "d") {
        Some(KeyCode::KeyD)
    }     else if is_literal(&v, "e") {
        Some(KeyCode::KeyE)
    }     else if is_literal(&v, "f") {
        Some(KeyCode::KeyF)
    }     else if is_literal(&v, "g") {
        Some(KeyCode::KeyG)
    }     else if is_literal(&v, "h") {
        Some(KeyCode::KeyH)
    }     else if is_literal(&v, "i") {
        Some(KeyCode::KeyI)
    }     else if is_literal(&v, "j") {
        Some(KeyCode::KeyJ)
    }     else if is_literal(&v, "k") {
        Some(KeyCode::KeyK)
    }     else if is_literal(&v, "l") {
        Some(KeyCode::KeyL)
    }     else if is_literal(&v, "m") {
        Some(KeyCode::KeyM)
    }     else if is_literal(&v, "n") {
        Some(KeyCode::KeyN)
    }     else if is_literal(&v, "o") {
        Some(KeyCode::KeyO)
    }     else if is_literal(&v, "p") {
        Some(KeyCode::KeyP)
    }     else if is_literal(&v, "q") {
        Some(KeyCode::KeyQ)
    }     else if is_literal(&v, "r") {
        Some(KeyCode::KeyR)
    }     else if is_literal(&v, "s") {
        Some(KeyCode::KeyS)
    }     else if is_literal(&v, "t") {
        Some(KeyCode::KeyT)
    }     else if is_literal(&v, "u") {
        Some(KeyCode::KeyU)
    }     else if is_literal(&v, "v") {
        Some(KeyCode::KeyV)
    }     else if is_literal(&v, "w") {
        Some(KeyCode::KeyW)
    }     else if is_literal(&v, "x") {
        Some(KeyCode::KeyX)
    }     else if is_literal(&v, "y") {
        Some(KeyCode::KeyY)
    }     else if is_literal(&v, "z") {
        Some(KeyCode::KeyZ)
    }     else if is_literal(&v, "0") {
        Some(KeyCode::Digit0)
    }     else if is_literal(&v, "1") {
        Some(KeyCode::Digit1)
    }     else if is_literal(&v, "2") {
        Some(KeyCode::Digit2)
    }     else if is_literal(&v, "3") {
        Some(KeyCode::Digit3)
    }     else if is_literal(&v, "4") {
        Some(KeyCode::Digit4)
    }     else if is_literal(&v, "5") {
        Some(KeyCode::Digit5)
    }     else if is_literal(&v, "6") {
        Some(KeyCode::Digit6)
    }     else if is_literal(&v, "7") {
        Some(KeyCode::Digit7)
    }     else if is_literal(&v, "8") {
        Some(KeyCode::Digit8)
    }     else if is_literal(&v, "9") {
        Some(KeyCode::Digit9)
    }     else if is_literal(&v, "f1") {
        Some(KeyCode::F1)
    }     else if is_literal(&v, "f2") {
        Some(KeyCode::F2)
    }     else if is_literal(&v, "f3") {
        Some(KeyCode::F3)
    }     else if is_literal(&v, "f4") {
        Some(KeyCode::F4)
    }     else if is_literal(&v, "f5") {
        Some(KeyCode::F5)
    }     else if is_literal(&v, "f6") {
        Some(KeyCode::F6)
    }     else if is_literal(&v, "f7") {
        Some(KeyCode::F7)
    }     else if is_literal(&v, "f8") {
        Some(KeyCode::F8)
    }     else if is_literal(&v, "f9") {
        Some(KeyCode::F9)
    }     else if is_literal(&v, "f10") {
        Some(KeyCode::F10)
    }     else if is_literal(&v, "f11") {
        Some(KeyCode::F11)
    }     else if is_literal(&v, "f12") {
        Some(KeyCode::F12)
    }     else if is_literal(&v, "space") {
        Some(KeyCode::Space)
    }     else if is_literal(&v, "enter") {
        Some(KeyCode::Enter)
    }     else if is_literal(&v, "return") {
        Some(KeyCode::Enter)
    }     else if is_literal(&v, "escape") {
        Some(KeyCode::Escape)
    }     else if is_literal(&v, "esc") {
        Some(KeyCode::Escape)
    }     else if is_literal(&v, "tab") {
        Some(KeyCode::Tab)
    }     else if is_literal(&v, "backspace") {
        Some(KeyCode::Backspace)
    }     else if is_literal(&v, "delete") {
        Some(KeyCode::Delete)
    }     else if is_literal(&v, "del") {
        Some(KeyCode::Delete)
    }     else if is_literal(&v, "insert") {
        Some(KeyCode::Insert)
    }     else if is_literal(&v, "ins") {
        Some(KeyCode::Insert)
    }     else if is_literal(&v, "home") {
        Some(KeyCode::Home)
    }     else if is_literal(&v, "end") {
        Some(KeyCode::End)
    }     else if is_literal(&v, "pageup") {
        Some(KeyCode::PageUp)
    }     else if is_literal(&v, "pgup") {
        Some(KeyCode::PageUp)
    }     else if is_literal(&v, "pagedown") {
        Some(KeyCode::PageDown)
    }     else if is_literal(&v, "pgdn") {
        Some(KeyCode::PageDown)
    }     else if is_literal(&v, "up") {
        Some(KeyCode::ArrowUp)
    }     else if is_literal(&v, "down") {
        Some(KeyCode::ArrowDown)
    }     else if is_literal(&v, "left") {
        Some(KeyCode::ArrowLeft)
    }     else if is_literal(&v, "right") {
        Some(KeyCode::ArrowRight)
    }     else if is_literal(&v, "printscreen") {
        Some(KeyCode::PrintScreen)
    }     else if is_literal(&v, "print") {
        Some(KeyCode::PrintScreen)
    }     else if is_literal(&v, "prtsc") {
        Some(KeyCode::PrintScreen)
    }     else if is_literal(&v, "pause") {
        Some(KeyCode::Pause)
    } else {
        None
    }
}

impl KeyCode {
    /// The name of the key in the vocabulary of keyboard events.
    pub open spec fn code_name(self) -> Seq<char> {
        match self {
            KeyCode::KeyA => "KeyA"@,
            KeyCode::KeyB => "KeyB"@,
            KeyCode::KeyC => "KeyC"@,
            KeyCode::KeyD => "KeyD"@,
            KeyCode::KeyE => "KeyE"@,
            KeyCode::KeyF => "KeyF"@,
            KeyCode::KeyG => "KeyG"@,
            KeyCode::KeyH => "KeyH"@,
            KeyCode::KeyI => "KeyI"@,
            KeyCode::KeyJ => "KeyJ"@,
            KeyCode::KeyK => "KeyK"@,
            KeyCode::KeyL => "KeyL"@,
            KeyCode::KeyM => "KeyM"@,
            KeyCode::KeyN => "KeyN"@,
            KeyCode::KeyO => "KeyO"@,
            KeyCode::KeyP => "KeyP"@,
            KeyCode::KeyQ => "KeyQ"@,
            KeyCode::KeyR => "KeyR"@,
            KeyCode::KeyS => "KeyS"@,
            KeyCode::KeyT => "KeyT"@,
            KeyCode::KeyU => "KeyU"@,
            KeyCode::KeyV => "KeyV"@,
            KeyCode::KeyW => "KeyW"@,
            KeyCode::KeyX => "KeyX"@,
            KeyCode::KeyY => "KeyY"@,
            KeyCode::KeyZ => "KeyZ"@,
            KeyCode::Digit0 => "Digit0"@,
            KeyCode::Digit1 => "Digit1"@,
            KeyCode::Digit2 => "Digit2"@,
            KeyCode::Digit3 => "Digit3"@,
            KeyCode::Digit4 => "Digit4"@,
            KeyCode::Digit5 => "Digit5"@,
            KeyCode::Digit6 => "Digit6"@,
            KeyCode::Digit7 => "Digit7"@,
            KeyCode::Digit8 => "Digit8"@,
            KeyCode::Digit9 => "Digit9"@,
            KeyCode::F1 => "F1"@,
            KeyCode::F2 => "F2"@,
            KeyCode::F3 => "F3"@,
            KeyCode::F4 => "F4"@,
            KeyCode::F5 => "F5"@,
            KeyCode::F6 => "F6"@,
            KeyCode::F7 => "F7"@,
            KeyCode::F8 => "F8"@,
            KeyCode::F9 => "F9"@,
            KeyCode::F10 => "F10"@,
            KeyCode::F11 => "F11"@,
            KeyCode::F12 => "F12"@,
            KeyCode::Space => "Space"@,
            KeyCode::Enter => "Enter"@,
            KeyCode::Escape => "Escape"@,
            KeyCode::Tab => "Tab"@,
            KeyCode::Backspace => "Backspace"@,
            KeyCode::Delete => "Delete"@,
            KeyCode::Insert => "Insert"@,
            KeyCode::Home => "Home"@,
            KeyCode::End => "End"@,
            KeyCode::PageUp => "PageUp"@,
            KeyCode::PageDown => "PageDown"@,
            KeyCode::ArrowUp => "ArrowUp"@,
            KeyCode::ArrowDown => "ArrowDown"@,
            KeyCode::ArrowLeft => "ArrowLeft"@,
            KeyCode::ArrowRight => "ArrowRight"@,
            KeyCode::PrintScreen => "PrintScreen"@,
            KeyCode::Pause => "Pause"@,
        }
    }

    /// The name of the key in the vocabulary of keyboard events.
    pub fn name(&self) -> (r: &'static str)
        ensures
            r@ == self.code_name(),
    {
        match self {
            KeyCode::KeyA => "KeyA",
            KeyCode::KeyB => "KeyB",
            KeyCode::KeyC => "KeyC",
            KeyCode::KeyD => "KeyD",
            KeyCode::KeyE => "KeyE",
            KeyCode::KeyF => "KeyF",
            KeyCode::KeyG => "KeyG",
            KeyCode::KeyH => "KeyH",
            KeyCode::KeyI => "KeyI",
            KeyCode::KeyJ => "KeyJ",
            KeyCode::KeyK => "KeyK",
            KeyCode::KeyL => "KeyL",
            KeyCode::KeyM => "KeyM",
            KeyCode::KeyN => "KeyN",
            KeyCode::KeyO => "KeyO",
            KeyCode::KeyP => "KeyP",
            KeyCode::KeyQ => "KeyQ",
            KeyCode::KeyR => "KeyR",
            KeyCode::KeyS => "KeyS",
            KeyCode::KeyT => "KeyT",
            KeyCode::KeyU => "KeyU",
            KeyCode::KeyV => "KeyV",
            KeyCode::KeyW => "KeyW",
            KeyCode::KeyX => "KeyX",
            KeyCode::KeyY => "KeyY",
            KeyCode::KeyZ => "KeyZ",
            KeyCode::Digit0 => "Digit0",
            KeyCode::Digit1 => "Digit1",
            KeyCode::Digit2 => "Digit2",
            KeyCode::Digit3 => "Digit3",
            KeyCode::Digit4 => "Digit4",
            KeyCode::Digit5 => "Digit5",
            KeyCode::Digit6 => "Digit6",
            KeyCode::Digit7 => "Digit7",
            KeyCode::Digit8 => "Digit8",
            KeyCode::Digit9 => "Digit9",
            KeyCode::F1 => "F1",
            KeyCode::F2 => "F2",
            KeyCode::F3 => "F3",
            KeyCode::F4 => "F4",
            KeyCode::F5 => "F5",
            KeyCode::F6 => "F6",
            KeyCode::F7 => "F7",
            KeyCode::F8 => "F8",
            KeyCode::F9 => "F9",
            KeyCode::F10 => "F10",
            KeyCode::F11 => "F11",
            KeyCode::F12 => "F12",
            KeyCode::Space => "Space",
            KeyCode::Enter => "Enter",
            KeyCode::Escape => "Escape",
            KeyCode::Tab => "Tab",
            KeyCode::Backspace => "Backspace",
            KeyCode::Delete => "Delete",
            KeyCode::Insert => "Insert",
            KeyCode::Home => "Home",
            KeyCode::End => "End",
            KeyCode::PageUp => "PageUp",
            KeyCode::PageDown => "PageDown",
            KeyCode::ArrowUp => "ArrowUp",
            KeyCode::ArrowDown => "ArrowDown",
            KeyCode::ArrowLeft => "ArrowLeft",
            KeyCode::ArrowRight => "ArrowRight",
            KeyCode::PrintScreen => "PrintScreen",
            KeyCode::Pause => "Pause",
        }
    }
}

/// The files that can be a plugin's script, in the order in which they are
/// looked for, each with the program that runs it and the flag that goes
/// before the script: a shell script on Unix, a batch file or a PowerShell
/// script on Windows.
pub fn script_runners(windows: bool) -> (r: Vec<(&'static str, &'static str, Option<&'static str>)>)
    ensures
        windows ==> r@.len() == 2 && r@[0].0@ == "run.bat"@ && r@[0].1@ == "cmd"@ && r@[0].2
            == Some("/c") && r@[1].0@ == "run.ps1"@ && r@[1].1@ == "powershell"@ && r@[1].2
            == Some("-File"),
        !windows ==> r@.len() == 1 && r@[0].0@ == "run.sh"@ && r@[0].1@ == "bash"@ && r@[0].2
            is None,
{
    let mut r: Vec<(&'static str, &'static str, Option<&'static str>)> = Vec::new();
    if windows {
        r.push(("run.bat", "cmd", Some("/c")));
        r.push(("run.ps1", "powershell", Some("-File")));
    } else {
        r.push(("run.sh", "bash", None));
    }
    r
}

/// `name` is the name of one of the base keys.
pub open spec fn is_key_name(name: Seq<char>) -> bool {
    exists|key: KeyCode| #[trigger] key.code_name() == name
}

} // verus!
