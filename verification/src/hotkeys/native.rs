//! The operating system's side of global hotkeys.

use global_hotkey::hotkey::{Code, HotKey, Modifiers};
use global_hotkey::{GlobalHotKeyEvent, GlobalHotKeyManager, HotKeyState};
use vstd::prelude::*;
use crate::hotkeys::types::{is_key_name, ModifierSet};

verus! {

/// The native registration context.
#[verifier::external_type_specification]
#[verifier::external_body]
pub struct ExGlobalHotKeyManager(GlobalHotKeyManager);

/// A key combination in the native form.
#[verifier::external_type_specification]
#[verifier::external_body]
pub struct ExHotKey(HotKey);

/// The native error.
#[verifier::external_type_specification]
#[verifier::external_body]
pub struct ExHotKeyError(global_hotkey::Error);

/// The identifier under which the operating system reports the combination
/// of the modifiers `mods` with the key named `key_name`.
pub uninterp spec fn native_id(mods: ModifierSet, key_name: Seq<char>) -> u32;

/// `HotKey::new` and `HotKey::id`: the native form of a combination and its
/// identifier, which is computed from the modifiers and the key alone.
/// `None` where `Code::from_str` does not know `key_name`; it knows the
/// name of every base key.
#[verifier::external_body]
pub(crate) fn native_hotkey(ctrl: bool, alt: bool, shift: bool, meta: bool, key_name: &str) -> (r:
    Option<(HotKey, u32)>)
    ensures
        r matches Some(pair) ==> pair.1 == native_id(
            ModifierSet { ctrl, alt, shift, meta },
            key_name@,
        ),
        is_key_name(key_name@) ==> r is Some,
{
    let mut mods = Modifiers::empty();
    mods.set(Modifiers::CONTROL, ctrl);
    mods.set(Modifiers::ALT, alt);
    mods.set(Modifiers::SHIFT, shift);
    mods.set(Modifiers::META, meta);
    match key_name.parse::<Code>() {
        Ok(code) => {
            let hotkey = HotKey::new(Some(mods), code);
            Some((hotkey, hotkey.id()))
        },
        Err(_) => None,
    }
}

/// `GlobalHotKeyManager::new`: a fresh native registration context, or the
/// reason why the platform gave none.
pub assume_specification[ GlobalHotKeyManager::new ]() -> (r: Result<
    GlobalHotKeyManager,
    global_hotkey::Error,
>)
;

/// `GlobalHotKeyManager::register`: asks the platform for the combination;
/// the platform may refuse it.
pub assume_specification[ GlobalHotKeyManager::register ](
    manager: &GlobalHotKeyManager,
    hotkey: HotKey,
) -> (r: Result<(), global_hotkey::Error>)
;

/// `GlobalHotKeyManager::unregister_all`: gives the combinations back.
pub assume_specification[ GlobalHotKeyManager::unregister_all ](
    manager: &GlobalHotKeyManager,
    hotkeys: &[HotKey],
) -> (r: Result<(), global_hotkey::Error>)
;

/// The message of a native error (its `Display` form).
#[verifier::external_body]
pub(crate) fn error_text(e: &global_hotkey::Error) -> (r: String) {
    e.to_string()
}

/// `GlobalHotKeyEvent::receiver().try_recv()`: the next hotkey event that is
/// waiting, as the identifier of the combination and whether the key went
/// down; `None` where none is waiting.
#[verifier::external_body]
pub(crate) fn poll_native_event() -> (r: Option<(u32, bool)>) {
    match GlobalHotKeyEvent::receiver().try_recv() {
        Ok(event) => Some(
            (
                event.id,
                match event.state {
                    HotKeyState::Pressed => true,
                    HotKeyState::Released => false,
                },
            ),
        ),
        Err(_) => None,
    }
}

} // verus!
