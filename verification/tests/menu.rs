use qol_tray::features::plugin_store::PluginStore;
use qol_tray::features::tray::menu::{
    find_menu_item_action, handle_menu_event, split_event, MenuDecision,
};
use qol_tray::features::{FeatureRegistry, MenuProvider};
use qol_tray::menu::builder::{
    after_feature, assemble_menu, build_menu, feature_name, feature_route, menu_entries, scoped_id,
    FeatureHandler, MenuEntry, UpdateOffer,
};
use qol_tray::menu::router::{EventHandler, Handler, HandlerError, HandlerResult};
use qol_tray::plugins::manifest::{ActionType, MenuConfig, MenuItem, PluginInfo, PluginManifest};
use qol_tray::plugins::{Plugin, PluginManager};
use std::sync::{Arc, Mutex};

struct Fake {
    items: usize,
    fail: bool,
    seen: Arc<Mutex<Vec<String>>>,
}

impl MenuProvider for Fake {
    fn menu_items(&self) -> Vec<MenuItem> {
        let mut items = Vec::new();
        if self.items >= 1 {
            items.push(action("open", "Open", ActionType::Run, None));
        }
        if self.items >= 2 {
            items.push(MenuItem::Submenu {
                id: "more".to_string(),
                label: "More".to_string(),
                items: vec![
                    MenuItem::Checkbox {
                        id: "flag".to_string(),
                        label: "Flag".to_string(),
                        checked: true,
                        action: ActionType::ToggleConfig,
                        config_key: Some("a.b".to_string()),
                    },
                    MenuItem::Separator,
                    MenuItem::Submenu {
                        id: "deep".to_string(),
                        label: "Deep".to_string(),
                        items: vec![action("leaf", "Leaf", ActionType::Settings, None)],
                    },
                ],
            });
        }
        items
    }

    fn handle_event(&self, event_id: &str) -> Result<(), HandlerError> {
        self.seen.lock().unwrap().push(event_id.to_string());
        if self.fail {
            Err(HandlerError::new("feature failed"))
        } else {
            Ok(())
        }
    }
}

fn action(id: &str, label: &str, action: ActionType, key: Option<&str>) -> MenuItem {
    MenuItem::Action {
        id: id.to_string(),
        label: label.to_string(),
        action,
        config_key: key.map(|k| k.to_string()),
    }
}

fn describe(entry: &MenuEntry) -> String {
    match entry {
        MenuEntry::Item { id, label } => format!("item {} [{}]", id, label),
        MenuEntry::Check { id, label, checked } => format!("check {} [{}] {}", id, label, checked),
        MenuEntry::Separator => "---".to_string(),
        MenuEntry::Submenu { id, label, children } => format!(
            "sub {} [{}] ({})",
            id,
            label,
            children.iter().map(describe).collect::<Vec<_>>().join(", ")
        ),
    }
}

#[test]
fn the_menu_lists_the_features_then_the_fixed_entries() {
    let seen = Arc::new(Mutex::new(Vec::new()));
    let mut registry = FeatureRegistry::new();
    registry.register(Box::new(Fake { items: 1, fail: false, seen: seen.clone() }));
    registry.register(Box::new(Fake { items: 0, fail: false, seen: seen.clone() }));
    registry.register(Box::new(Fake { items: 2, fail: true, seen: seen.clone() }));
    assert_eq!(registry.features().len(), 3);

    let (menu, router) = build_menu(Arc::new(registry), None);
    let lines: Vec<String> = menu.iter().map(describe).collect();
    assert_eq!(
        lines,
        vec![
            "item feature_0::open [Open]",
            "item feature_2::open [Open]",
            "sub feature_2::more [More] (check feature_2::flag [Flag] true, ---, sub feature_2::deep [Deep] (item feature_2::leaf [Leaf]))",
            "---",
            "item __quit__ [Quit]",
        ]
    );

    assert_eq!(router.resolve("feature_0::open"), Some(0));
    assert_eq!(router.resolve("feature_1::open"), None);
    assert_eq!(router.resolve("feature_2::leaf"), Some(1));
    assert_eq!(router.resolve("__quit__"), Some(2));
    assert_eq!(router.resolve("__update__"), None);
    assert_eq!(router.resolve("feature_0"), None);

    assert_eq!(router.route("feature_0::open").unwrap(), HandlerResult::Continue);
    assert_eq!(router.route("feature_2::leaf").unwrap_err().message, "feature failed");
    assert_eq!(router.route("feature_1::open").unwrap(), HandlerResult::Continue);
    assert_eq!(router.route("__quit__").unwrap(), HandlerResult::Quit);
    assert_eq!(router.route("__quit__x").unwrap(), HandlerResult::Continue);
    assert_eq!(*seen.lock().unwrap(), vec!["feature_0::open", "feature_2::leaf"]);
}

#[test]
fn an_update_is_offered_between_the_features_and_quit() {
    let updates = Arc::new(Mutex::new(0));
    let counter = updates.clone();
    let offer = |version: Option<&str>, counter: Arc<Mutex<i32>>| UpdateOffer {
        version: version.map(|v| v.to_string()),
        handler: EventHandler::Sync(Box::new(move |_: &str| {
            *counter.lock().unwrap() += 1;
            Ok(HandlerResult::Continue)
        })),
    };
    let (menu, router) = build_menu(Arc::new(FeatureRegistry::default()), Some(offer(Some("1.2.3"), counter)));
    let lines: Vec<String> = menu.iter().map(describe).collect();
    assert_eq!(lines, vec!["---", "item __update__ [\u{2B06} Update to v1.2.3]", "item __quit__ [Quit]"]);
    assert_eq!(router.resolve("__update__"), Some(0));
    assert_eq!(router.resolve("__quit__"), Some(1));
    assert_eq!(router.route("__update__").unwrap(), HandlerResult::Continue);
    assert_eq!(*updates.lock().unwrap(), 1);
    assert_eq!(router.route("__quit__").unwrap(), HandlerResult::Quit);

    let (menu, _) = build_menu(Arc::new(FeatureRegistry::new()), Some(offer(None, updates.clone())));
    assert_eq!(describe(&menu[1]), "item __update__ [\u{2B06} Update Available]");
}

#[test]
fn identifiers_are_scoped_by_their_owner_at_every_depth() {
    assert_eq!(scoped_id("plugin-a", "run"), "plugin-a::run");
    assert_eq!(scoped_id("", ""), "::");
    assert_eq!(feature_name(0), "feature_0");
    assert_eq!(feature_name(42), "feature_42");
    let seen = Arc::new(Mutex::new(Vec::new()));
    let items = Fake { items: 2, fail: false, seen }.menu_items();
    let entries = menu_entries(&items, "p");
    assert_eq!(entries.len(), 2);
    assert_eq!(
        describe(&entries[1]),
        "sub p::more [More] (check p::flag [Flag] true, ---, sub p::deep [Deep] (item p::leaf [Leaf]))"
    );
    assert!(menu_entries(&vec![], "p").is_empty());
}

#[test]
fn the_plugin_store_offers_one_entry_and_opens_its_page() {
    let store = PluginStore::new();
    let items = store.menu_items();
    assert_eq!(items.len(), 1);
    match &items[0] {
        MenuItem::Action { id, action, config_key, .. } => {
            assert_eq!(id, "plugin_store");
            assert_eq!(*action, ActionType::Run);
            assert!(config_key.is_none());
        }
        _ => panic!("Expected Action"),
    }
    assert_eq!(store.page_for("feature_0::plugin_store"), Some("http://127.0.0.1:42700".to_string()));
    assert_eq!(store.page_for("x::y::plugin_store"), Some("http://127.0.0.1:42700".to_string()));
    assert_eq!(store.page_for("plugin_store"), None);
    assert_eq!(store.page_for("feature_0::plugin_store2"), None);
}

fn plugin_with_menu(id: &str, items: Vec<MenuItem>) -> Plugin {
    Plugin::new(
        id.to_string(),
        PluginManifest {
            plugin: PluginInfo {
                name: id.to_string(),
                description: String::new(),
                version: "1.0.0".to_string(),
                author: None,
                platforms: None,
            },
            menu: MenuConfig { label: id.to_string(), icon: None, items },
            daemon: None,
            dependencies: None,
        },
        format!("/plugins/{}", id),
    )
}

#[test]
fn menu_items_are_found_in_submenus() {
    let items = vec![
        action("run", "Run", ActionType::Run, None),
        MenuItem::Separator,
        MenuItem::Submenu {
            id: "sub".to_string(),
            label: "Sub".to_string(),
            items: vec![
                MenuItem::Checkbox {
                    id: "flag".to_string(),
                    label: "Flag".to_string(),
                    checked: false,
                    action: ActionType::ToggleConfig,
                    config_key: Some("feature.enabled".to_string()),
                },
                action("run", "Shadowed", ActionType::Settings, None),
            ],
        },
        action("flag", "Later", ActionType::Settings, None),
    ];
    assert_eq!(find_menu_item_action(&items, "run"), Some((ActionType::Run, None)));
    assert_eq!(
        find_menu_item_action(&items, "flag"),
        Some((ActionType::ToggleConfig, Some("feature.enabled".to_string())))
    );
    assert_eq!(find_menu_item_action(&items, "sub"), None);
    assert_eq!(find_menu_item_action(&items, "nope"), None);
    assert_eq!(find_menu_item_action(&vec![], "run"), None);
}

#[test]
fn menu_events_are_decided() {
    assert_eq!(split_event("a::b"), Some(("a".to_string(), "b".to_string())));
    assert_eq!(split_event("a:::b"), Some(("a".to_string(), ":b".to_string())));
    assert_eq!(split_event("::"), Some((String::new(), String::new())));
    assert_eq!(split_event("a::b::c"), None);
    assert_eq!(split_event("a:b"), None);
    assert_eq!(split_event("a::::b"), None);

    let mut manager = PluginManager::new();
    manager.insert(plugin_with_menu(
        "p",
        vec![
            action("go", "Go", ActionType::Run, None),
            action("prefs", "Prefs", ActionType::Settings, None),
            action("flip", "Flip", ActionType::ToggleConfig, Some("a.b")),
            action("broken", "Broken", ActionType::ToggleConfig, None),
        ],
    ));
    assert!(matches!(handle_menu_event(&manager, "__quit__"), MenuDecision::Quit));
    assert!(matches!(handle_menu_event(&manager, "__reload__"), MenuDecision::Reload));
    assert!(matches!(handle_menu_event(&manager, "nonsense"), MenuDecision::Malformed));
    assert!(matches!(handle_menu_event(&manager, "p::go::x"), MenuDecision::Malformed));
    assert!(matches!(handle_menu_event(&manager, "q::go"), MenuDecision::UnknownPlugin { plugin_id } if plugin_id == "q"));
    assert!(matches!(handle_menu_event(&manager, "p::go"), MenuDecision::Run { plugin_id } if plugin_id == "p"));
    assert!(matches!(handle_menu_event(&manager, "p::prefs"), MenuDecision::Settings { plugin_id } if plugin_id == "p"));
    assert!(matches!(
        handle_menu_event(&manager, "p::flip"),
        MenuDecision::Toggle { plugin_id, config_key } if plugin_id == "p" && config_key == "a.b"
    ));
    assert!(matches!(handle_menu_event(&manager, "p::broken"), MenuDecision::Nothing { item_id } if item_id == "broken"));
    assert!(matches!(handle_menu_event(&manager, "p::none"), MenuDecision::Nothing { item_id } if item_id == "none"));
}

#[test]
fn a_feature_handler_hands_the_event_to_its_feature() {
    assert_eq!(after_feature(Ok(())).unwrap(), HandlerResult::Continue);
    assert_eq!(after_feature(Err(HandlerError::new("no"))).unwrap_err().message, "no");

    let seen = Arc::new(Mutex::new(Vec::new()));
    let mut registry = FeatureRegistry::new();
    registry.register(Box::new(Fake { items: 1, fail: false, seen: seen.clone() }));
    registry.register(Box::new(Fake { items: 1, fail: true, seen: seen.clone() }));
    let registry = Arc::new(registry);

    let first = FeatureHandler { registry: registry.clone(), index: 0 };
    assert_eq!(first.handle("feature_0::open").unwrap(), HandlerResult::Continue);
    let second = FeatureHandler { registry: registry.clone(), index: 1 };
    assert_eq!(second.handle("feature_1::open").unwrap_err().message, "feature failed");
    let beyond = FeatureHandler { registry, index: 2 };
    assert_eq!(beyond.handle("feature_2::open").unwrap(), HandlerResult::Continue);
    assert_eq!(*seen.lock().unwrap(), vec!["feature_0::open", "feature_1::open"]);
}

#[test]
fn each_feature_route_hands_its_events_to_its_own_feature() {
    let seen: Vec<Arc<Mutex<Vec<String>>>> = (0..4).map(|_| Arc::new(Mutex::new(Vec::new()))).collect();
    let mut registry = FeatureRegistry::new();
    registry.register(Box::new(Fake { items: 0, fail: false, seen: seen[0].clone() }));
    registry.register(Box::new(Fake { items: 1, fail: false, seen: seen[1].clone() }));
    registry.register(Box::new(Fake { items: 0, fail: false, seen: seen[2].clone() }));
    registry.register(Box::new(Fake { items: 1, fail: true, seen: seen[3].clone() }));
    let registry = Arc::new(registry);

    let (_, router) = build_menu(registry.clone(), None);
    assert_eq!(router.resolve("feature_1::open"), Some(0));
    assert_eq!(router.resolve("feature_3::open"), Some(1));
    assert_eq!(router.route("feature_3::open").unwrap_err().message, "feature failed");
    assert_eq!(router.route("feature_1::open").unwrap(), HandlerResult::Continue);
    assert_eq!(router.route("feature_0::open").unwrap(), HandlerResult::Continue);
    assert_eq!(router.route("feature_2::open").unwrap(), HandlerResult::Continue);
    assert_eq!(router.route("feature_13::open").unwrap(), HandlerResult::Continue);

    let heard: Vec<Vec<String>> = seen.iter().map(|s| s.lock().unwrap().clone()).collect();
    assert_eq!(heard, vec![vec![], vec!["feature_1::open".to_string()], vec![], vec!["feature_3::open".to_string()]]);

    let route = feature_route(&registry, 3);
    assert_eq!(route.handler.call("anything").unwrap_err().message, "feature failed");
    assert_eq!(seen[3].lock().unwrap().len(), 2);
    let route = feature_route(&registry, 4);
    assert_eq!(route.handler.call("anything").unwrap(), HandlerResult::Continue);
}

#[test]
fn the_menu_is_assembled_from_the_offered_items() {
    let seen = Arc::new(Mutex::new(Vec::new()));
    let mut registry = FeatureRegistry::new();
    registry.register(Box::new(Fake { items: 2, fail: false, seen: seen.clone() }));
    registry.register(Box::new(Fake { items: 2, fail: false, seen: seen.clone() }));
    let registry = Arc::new(registry);

    let offered = vec![
        vec![],
        vec![action("a", "A", ActionType::Run, None), action("b", "B", ActionType::Run, None)],
        vec![action("c", "C", ActionType::Run, None)],
    ];
    let (menu, router) = assemble_menu(offered, &registry, None);
    let lines: Vec<String> = menu.iter().map(describe).collect();
    assert_eq!(
        lines,
        vec!["item feature_1::a [A]", "item feature_1::b [B]", "item feature_2::c [C]", "---", "item __quit__ [Quit]"]
    );
    assert_eq!(router.resolve("feature_0::a"), None);
    assert_eq!(router.resolve("feature_1::a"), Some(0));
    assert_eq!(router.resolve("feature_2::c"), Some(1));
    assert_eq!(router.resolve("__quit__"), Some(2));
    assert_eq!(router.route("feature_1::b").unwrap(), HandlerResult::Continue);
    assert_eq!(router.route("feature_2::c").unwrap(), HandlerResult::Continue);
    assert_eq!(*seen.lock().unwrap(), vec!["feature_1::b"]);

    let (menu, router) = assemble_menu(Vec::new(), &registry, None);
    assert_eq!(menu.len(), 2);
    assert_eq!(router.resolve("__quit__"), Some(0));
}
