use hayfrp_client::registry::Registry;

#[test]
fn new_registry_holds_nothing() {
    let registry: Registry<u32> = Registry::new();
    assert!(!registry.contains("a"));
    assert!(!registry.contains(""));
}

#[test]
fn insert_then_contains() {
    let mut registry: Registry<u32> = Registry::new();
    assert_eq!(registry.insert("a".to_string(), 7), Ok(()));
    assert!(registry.contains("a"));
    assert!(!registry.contains("b"));
}

#[test]
fn insert_refuses_present_id_and_returns_handle() {
    let mut registry: Registry<u32> = Registry::new();
    assert_eq!(registry.insert("a".to_string(), 7), Ok(()));
    assert_eq!(registry.insert("a".to_string(), 8), Err(8));
    // The first handle is still the one registered.
    assert_eq!(registry.remove("a"), Some(7));
}

#[test]
fn remove_returns_handle_and_clears() {
    let mut registry: Registry<u32> = Registry::new();
    assert_eq!(registry.insert("a".to_string(), 1), Ok(()));
    assert_eq!(registry.insert("b".to_string(), 2), Ok(()));
    assert_eq!(registry.insert("c".to_string(), 3), Ok(()));
    assert_eq!(registry.remove("b"), Some(2));
    assert!(!registry.contains("b"));
    assert!(registry.contains("a"));
    assert!(registry.contains("c"));
    assert_eq!(registry.remove("a"), Some(1));
    assert_eq!(registry.remove("c"), Some(3));
}

#[test]
fn remove_is_idempotent() {
    let mut registry: Registry<u32> = Registry::new();
    assert_eq!(registry.insert("a".to_string(), 1), Ok(()));
    assert_eq!(registry.remove("a"), Some(1));
    assert_eq!(registry.remove("a"), None);
    assert_eq!(registry.remove("a"), None);
    assert!(!registry.contains("a"));
}

#[test]
fn remove_absent_changes_nothing() {
    let mut registry: Registry<u32> = Registry::new();
    assert_eq!(registry.insert("a".to_string(), 1), Ok(()));
    assert_eq!(registry.remove("zz"), None);
    assert!(registry.contains("a"));
    assert_eq!(registry.remove("a"), Some(1));
}

#[test]
fn id_can_be_reused_after_removal() {
    let mut registry: Registry<u32> = Registry::new();
    assert_eq!(registry.insert("a".to_string(), 1), Ok(()));
    assert_eq!(registry.remove("a"), Some(1));
    assert_eq!(registry.insert("a".to_string(), 2), Ok(()));
    assert_eq!(registry.remove("a"), Some(2));
}

#[test]
fn ids_are_compared_exactly() {
    let mut registry: Registry<u32> = Registry::new();
    assert_eq!(registry.insert("proc".to_string(), 1), Ok(()));
    assert!(!registry.contains("Proc"));
    assert!(!registry.contains("proc "));
    assert!(!registry.contains("pro"));
    assert_eq!(registry.insert("".to_string(), 2), Ok(()));
    assert!(registry.contains(""));
}

#[test]
fn behaves_like_a_map_over_a_long_run() {
    let mut registry: Registry<u32> = Registry::new();
    let mut model: std::collections::HashMap<String, u32> = std::collections::HashMap::new();
    let mut state: u32 = 12345;
    for step in 0..2000u32 {
        state = state.wrapping_mul(1_664_525).wrapping_add(1_013_904_223);
        let id = format!("p{}", (state >> 16) % 12);
        match (state >> 8) % 3 {
            0 => {
                let expected = if model.contains_key(&id) {
                    Err(step)
                } else {
                    model.insert(id.clone(), step);
                    Ok(())
                };
                assert_eq!(registry.insert(id, step), expected);
            }
            1 => assert_eq!(registry.remove(&id), model.remove(&id)),
            _ => assert_eq!(registry.contains(&id), model.contains_key(&id)),
        }
    }
}

#[test]
fn get_shows_the_handle_without_removing() {
    let mut registry: Registry<u32> = Registry::new();
    assert_eq!(registry.get("a"), None);
    assert_eq!(registry.insert("a".to_string(), 4), Ok(()));
    assert_eq!(registry.insert("b".to_string(), 5), Ok(()));
    assert_eq!(registry.get("a"), Some(&4));
    assert_eq!(registry.get("b"), Some(&5));
    assert_eq!(registry.get("c"), None);
    assert!(registry.contains("a"));
    assert_eq!(registry.remove("a"), Some(4));
    assert_eq!(registry.get("a"), None);
}
