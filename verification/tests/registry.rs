use std::any::Any;
use std::sync::Arc;

use dactor::registry::ActorRegistry;

#[test]
fn register_and_lookup() {
    let mut registry = ActorRegistry::new();
    registry.register("greeting", "hello".to_string());
    assert_eq!(registry.lookup("greeting"), Some("hello".to_string()));
}

#[test]
fn lookup_wrong_type_returns_none() {
    let mut registry: ActorRegistry<Arc<dyn Any + Send + Sync>> = ActorRegistry::new();
    registry.register("num", Arc::new(42u64));
    let found = registry
        .lookup("num")
        .and_then(|entry| entry.downcast_ref::<String>().cloned());
    assert_eq!(found, None);
}

#[test]
fn lookup_missing_name_returns_none() {
    let registry: ActorRegistry<String> = ActorRegistry::new();
    assert_eq!(registry.lookup("missing"), None);
}

#[test]
fn unregister_removes_entry() {
    let mut registry = ActorRegistry::new();
    registry.register("item", "value".to_string());
    assert!(registry.contains("item"));
    assert!(registry.unregister("item"));
    assert!(!registry.contains("item"));
    assert!(!registry.unregister("item"));
}

#[test]
fn len_and_names() {
    let mut registry = ActorRegistry::new();
    assert_eq!(registry.len(), 0);
    assert!(registry.is_empty());

    registry.register("a", 1u32);
    registry.register("b", 2u32);
    assert_eq!(registry.len(), 2);
    assert!(!registry.is_empty());

    let mut names = registry.names();
    names.sort();
    assert_eq!(names, vec!["a", "b"]);
}

#[test]
fn overwrite_existing_name() {
    let mut registry = ActorRegistry::new();
    registry.register("key", "old".to_string());
    registry.register("key", "new".to_string());
    assert_eq!(registry.lookup("key"), Some("new".to_string()));
    assert_eq!(registry.len(), 1);
}

#[test]
fn dynamic_lookup_with_matching_type() {
    let mut registry: ActorRegistry<Arc<dyn Any + Send + Sync>> = ActorRegistry::default();
    registry.register("num", Arc::new(42u64));
    let found = registry
        .lookup("num")
        .and_then(|entry| entry.downcast_ref::<u64>().cloned());
    assert_eq!(found, Some(42));
}

#[test]
fn register_leaves_other_names() {
    let mut registry = ActorRegistry::new();
    registry.register("a", 1u8);
    registry.register("b", 2u8);
    registry.register("a", 3u8);
    assert_eq!(registry.lookup("b"), Some(2));
    assert_eq!(registry.lookup("a"), Some(3));
    assert!(registry.unregister("a"));
    assert_eq!(registry.lookup("b"), Some(2));
    assert_eq!(registry.names(), vec!["b".to_string()]);
}
