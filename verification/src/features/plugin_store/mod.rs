//! The plugin store: the menu entry that opens the store's page, and what
//! the store's pages and interfaces decide.

pub mod github;
pub mod installer;
pub mod plugin_ui;
pub mod server;

use vstd::prelude::*;
use crate::plugins::manifest::{ActionType, MenuItem};
use crate::text::{append_chars, chars_of, decimal_digits, digits_of, ends_with, has_suffix, string_of};

verus! {

/// The local port on which the store's page is served.
pub const SERVER_PORT: u16 = 42700;

/// The address of the store's page on local port `port`.
pub open spec fn store_url(port: nat) -> Seq<char> {
    "http://127.0.0.1:"@ + digits_of(port)
}

/// The plugin store as a feature of the menu.
pub struct PluginStore;

impl PluginStore {
    pub fn new() -> Self {
        Self
    }

    /// The one entry of the store: an action named `plugin_store`.
    pub fn menu_items(&self) -> (r: Vec<MenuItem>)
        ensures
            r@.len() == 1,
            r@[0] matches MenuItem::Action { id, label, action, config_key } && id@
                == "plugin_store"@ && action == ActionType::Run && config_key is None,
    {
        let mut items: Vec<MenuItem> = Vec::new();
        items.push(
            MenuItem::Action {
                id: string_of(&chars_of("plugin_store")),
                label: string_of(&chars_of("\u{1F50C} Plugin Store")),
                action: ActionType::Run,
                config_key: None,
            },
        );
        items
    }

    /// The page to open for the event `event_id`: the store's page if the
    /// event is the store's entry under any prefix, and none otherwise.
    pub fn page_for(&self, event_id: &str) -> (r: Option<String>)
        ensures
            match r {
                Some(url) => has_suffix(event_id@, "::plugin_store"@) && url@ == store_url(
                    SERVER_PORT as nat,
                ),
                None => !has_suffix(event_id@, "::plugin_store"@),
            },
    {
        let id = chars_of(event_id);
        let suffix = chars_of("::plugin_store");
        if ends_with(&id, &suffix) {
            let mut url = chars_of("http://127.0.0.1:");
            let port = decimal_digits(SERVER_PORT as u64);
            append_chars(&mut url, &port);
            Some(string_of(&url))
        } else {
            None
        }
    }
}

} // verus!
