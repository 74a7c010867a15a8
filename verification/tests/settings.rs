use herbie::settings::{default_for, get, get_all, get_with_default};
use herbie::store::Store;

#[test]
fn returns_none_for_unset_key() {
    let store = Store::new();
    assert_eq!(get(&store, "shortcut"), None);
}

#[test]
fn writes_and_reads_back_a_value() {
    let mut store = Store::new();
    herbie::settings::set(&mut store, "shortcut", "Alt+Space");
    assert_eq!(get(&store, "shortcut"), Some("Alt+Space".to_string()));
}

#[test]
fn upserts_on_conflict() {
    let mut store = Store::new();
    herbie::settings::set(&mut store, "exportDir", "/a");
    herbie::settings::set(&mut store, "exportDir", "/b");
    assert_eq!(get(&store, "exportDir"), Some("/b".to_string()));
}

#[test]
fn returns_default_when_unset_via_getting_with_default() {
    let store = Store::new();
    assert_eq!(get_with_default(&store, "shortcut"), "Ctrl+Shift+Space");
}

#[test]
fn overrides_default_once_set() {
    let mut store = Store::new();
    herbie::settings::set(&mut store, "shortcut", "Ctrl+K");
    assert_eq!(get_with_default(&store, "shortcut"), "Ctrl+K");
}

#[test]
fn get_all_returns_empty_when_nothing_set() {
    let store = Store::new();
    assert!(get_all(&store).is_empty());
}

#[test]
fn get_all_returns_all_set_keys() {
    let mut store = Store::new();
    herbie::settings::set(&mut store, "shortcut", "Ctrl+K");
    herbie::settings::set(&mut store, "exportDir", "/x");
    let all = get_all(&store);
    assert_eq!(all.len(), 2);
    let map: std::collections::HashMap<String, String> = all.into_iter().collect();
    assert_eq!(map.get("shortcut"), Some(&"Ctrl+K".to_string()));
    assert_eq!(map.get("exportDir"), Some(&"/x".to_string()));
}

#[test]
fn defaults_of_known_and_unknown_keys() {
    assert_eq!(default_for("shortcut"), "Ctrl+Shift+Space");
    assert_eq!(default_for("idleThresholdSec"), "300");
    assert_eq!(default_for("exportDir"), "");
}

#[test]
fn setting_one_key_leaves_the_others() {
    let mut store = Store::new();
    herbie::settings::set(&mut store, "a", "1");
    herbie::settings::set(&mut store, "b", "2");
    herbie::settings::set(&mut store, "a", "3");
    assert_eq!(get(&store, "a"), Some("3".to_string()));
    assert_eq!(get(&store, "b"), Some("2".to_string()));
    assert_eq!(store.settings.len(), 2);
}
