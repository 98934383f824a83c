use std::hash::DefaultHasher;

use tool_manager::config::McpServerConfig;
use tool_manager::json::JsonValue;
use tool_manager::keyed::KeyedList;
use tool_manager::manager::{sanitize_providers, ToolManager};
use std::hash::Hasher;

use tool_manager::sanitize::{decimal_text, sanitize_server_name};

fn text(s: &str) -> JsonValue {
    JsonValue::Str(s.to_string())
}

fn config_of(entries: &[(&str, &str)]) -> McpServerConfig {
    let mut c = McpServerConfig::new();
    for (k, v) in entries {
        c.mcp_servers.insert(k.to_string(), text(v));
    }
    c
}

fn is_digits(s: &str) -> bool {
    !s.is_empty() && s.chars().all(|c| c.is_ascii_digit())
}

#[test]
fn valid_names_are_left_unchanged() {
    let mut h = DefaultHasher::new();
    for name in ["weather", "my_server2", "A", "git_hub_tools"] {
        assert_eq!(sanitize_server_name(name.to_string(), &mut h), name);
    }
}

#[test]
fn invalid_characters_are_filtered_out() {
    let mut h = DefaultHasher::new();
    assert_eq!(sanitize_server_name("my-server!".to_string(), &mut h), "myserver");
    assert_eq!(sanitize_server_name("1abc".to_string(), &mut h), "abc");
    assert_eq!(sanitize_server_name("web.search".to_string(), &mut h), "websearch");
}

#[test]
fn names_without_allowed_characters_become_digits() {
    let mut h = DefaultHasher::new();
    for name in ["!!!", "123", "", "--_--", "日本"] {
        let r = sanitize_server_name(name.to_string(), &mut h);
        assert!(is_digits(&r), "{name:?} gave {r:?}");
    }
}

#[test]
fn fallback_is_the_hasher_value_in_decimal() {
    let mut h = DefaultHasher::new();
    let r = sanitize_server_name("-_-".to_string(), &mut h);
    assert_eq!(r, h.finish().to_string());
    assert!(r.parse::<u64>().is_ok());
}

#[test]
fn hasher_is_untouched_unless_needed() {
    let fresh = DefaultHasher::new();
    let mut h = DefaultHasher::new();
    sanitize_server_name("weather".to_string(), &mut h);
    sanitize_server_name("my-server".to_string(), &mut h);
    assert_eq!(h.finish(), fresh.finish());
}

#[test]
fn equal_hashers_give_equal_names() {
    let mut h1 = DefaultHasher::new();
    let mut h2 = DefaultHasher::new();
    let a = sanitize_server_name("***".to_string(), &mut h1);
    let b = sanitize_server_name("***".to_string(), &mut h2);
    assert_eq!(a, b);
    assert_eq!(h1.finish(), h2.finish());
}

#[test]
fn decimal_text_writes_digits() {
    assert_eq!(decimal_text(0), "0");
    assert_eq!(decimal_text(7), "7");
    assert_eq!(decimal_text(1234567890), "1234567890");
    assert_eq!(decimal_text(u64::MAX), u64::MAX.to_string());
}

#[test]
fn local_definition_wins_with_one_conflict() {
    let global = config_of(&[("A", "X")]);
    let local = config_of(&[("A", "Y"), ("B", "Z")]);
    let (merged, conflicts) = McpServerConfig::load_config(Some(global), Some(local));
    assert_eq!(merged.mcp_servers.entries().len(), 2);
    assert_eq!(merged.mcp_servers.get("A"), Some(&text("Y")));
    assert_eq!(merged.mcp_servers.get("B"), Some(&text("Z")));
    assert_eq!(conflicts, vec!["A".to_string()]);
}

#[test]
fn single_source_is_taken_unchanged() {
    let (merged, conflicts) = McpServerConfig::load_config(Some(config_of(&[("g", "1"), ("h", "2")])), None);
    assert_eq!(merged.mcp_servers.entries().len(), 2);
    assert_eq!(merged.mcp_servers.get("g"), Some(&text("1")));
    assert_eq!(merged.mcp_servers.get("h"), Some(&text("2")));
    assert!(conflicts.is_empty());

    let (merged, conflicts) = McpServerConfig::load_config(None, Some(config_of(&[("l", "3")])));
    assert_eq!(merged.mcp_servers.entries().len(), 1);
    assert_eq!(merged.mcp_servers.get("l"), Some(&text("3")));
    assert!(conflicts.is_empty());
}

#[test]
fn no_source_gives_no_providers() {
    let (merged, conflicts) = McpServerConfig::load_config(None, None);
    assert!(merged.mcp_servers.entries().is_empty());
    assert!(conflicts.is_empty());
}

#[test]
fn disjoint_sources_merge_without_conflict() {
    let (merged, conflicts) =
        McpServerConfig::load_config(Some(config_of(&[("a", "1")])), Some(config_of(&[("b", "2")])));
    assert_eq!(merged.mcp_servers.entries().len(), 2);
    assert!(conflicts.is_empty());
}

#[test]
fn provider_names_are_snake_cased_then_sanitized() {
    let mut h = DefaultHasher::new();
    let out = sanitize_providers(config_of(&[("MyServer", "cfg"), ("@@@", "other")]), &mut h);
    assert_eq!(out.len(), 2);
    let snake = out.iter().find(|(_, v)| *v == text("cfg")).unwrap();
    assert_eq!(snake.0, "my_server");
    let hashed = out.iter().find(|(_, v)| *v == text("other")).unwrap();
    assert!(is_digits(&hashed.0));
}

#[test]
fn same_name_providers_are_both_kept() {
    let results: Vec<(String, Result<u32, String>)> =
        vec![("weather".to_string(), Ok(1)), ("weather".to_string(), Ok(2))];
    let (manager, failed) = ToolManager::from_configs(results);
    assert!(failed.is_empty());
    assert_eq!(manager.clients.entries().len(), 2);
    assert_eq!(manager.clients.get("weather"), Some(&2));
    assert_eq!(manager.clients.get("weather1"), Some(&1));
}

#[test]
fn three_way_collision_shifts_each_client_along() {
    let results: Vec<(String, Result<char, String>)> =
        vec![("n".to_string(), Ok('a')), ("n".to_string(), Ok('b')), ("n".to_string(), Ok('c'))];
    let (manager, _) = ToolManager::from_configs(results);
    assert_eq!(manager.clients.entries().len(), 3);
    assert_eq!(manager.clients.get("n"), Some(&'c'));
    assert_eq!(manager.clients.get("n1"), Some(&'b'));
    assert_eq!(manager.clients.get("n11"), Some(&'a'));
}

#[test]
fn displaced_client_skips_taken_suffix() {
    let results: Vec<(String, Result<u8, String>)> =
        vec![("x1".to_string(), Ok(1)), ("x".to_string(), Ok(2)), ("x".to_string(), Ok(3))];
    let (manager, _) = ToolManager::from_configs(results);
    assert_eq!(manager.clients.get("x"), Some(&3));
    assert_eq!(manager.clients.get("x1"), Some(&2));
    assert_eq!(manager.clients.get("x11"), Some(&1));
}

#[test]
fn failed_starts_are_reported_and_left_out() {
    let results: Vec<(String, Result<u8, String>)> = vec![
        ("good".to_string(), Ok(1)),
        ("bad".to_string(), Err("spawn failed".to_string())),
        ("worse".to_string(), Err("timeout".to_string())),
    ];
    let (manager, failed) = ToolManager::from_configs(results);
    assert_eq!(manager.clients.entries().len(), 1);
    assert!(!manager.clients.contains_key("bad"));
    assert_eq!(
        failed,
        vec![
            ("bad".to_string(), "spawn failed".to_string()),
            ("worse".to_string(), "timeout".to_string())
        ]
    );
}

#[test]
fn keyed_list_insert_replaces_and_pops() {
    let mut k: KeyedList<u8> = KeyedList::new();
    assert_eq!(k.insert("a".to_string(), 1), None);
    assert_eq!(k.insert("a".to_string(), 2), Some(1));
    assert_eq!(k.get("a"), Some(&2));
    assert_eq!(k.pop(), Some(("a".to_string(), 2)));
    assert_eq!(k.pop(), None);
}
