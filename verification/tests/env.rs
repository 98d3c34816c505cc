use envhist::env::Binding;
use envhist::Env;

fn pairs(env: &Env) -> Vec<(String, String)> {
    let mut out = Vec::new();
    for b in env.to_vec() {
        out.push((b.key, b.value));
    }
    out
}

#[test]
fn new_env_is_empty() {
    let env = Env::new();
    assert_eq!(env.len(), 0);
    assert!(env.is_empty());
    assert!(!env.contains_key("PATH"));
    assert_eq!(env.get("PATH"), None);
    assert!(env.to_vec().is_empty());
}

#[test]
fn insert_then_get() {
    let mut env = Env::new();
    assert_eq!(env.insert("FOO".to_string(), "bar".to_string()), None);
    assert_eq!(env.get("FOO"), Some(&"bar".to_string()));
    assert!(env.contains_key("FOO"));
    assert!(!env.contains_key("FO"));
    assert!(!env.contains_key("FOOO"));
    assert_eq!(env.len(), 1);
    assert!(!env.is_empty());
}

#[test]
fn insert_replaces_and_returns_the_old_value() {
    let mut env = Env::new();
    env.insert("FOO".to_string(), "bar".to_string());
    env.insert("BAZ".to_string(), "1".to_string());
    assert_eq!(env.insert("FOO".to_string(), "baz".to_string()), Some("bar".to_string()));
    assert_eq!(env.get("FOO"), Some(&"baz".to_string()));
    assert_eq!(env.get("BAZ"), Some(&"1".to_string()));
    assert_eq!(env.len(), 2);
}

#[test]
fn bindings_come_in_order_of_their_names_whatever_the_order_of_insertion() {
    let mut env = Env::new();
    for (k, v) in [("m", "1"), ("z", "2"), ("a", "3"), ("M", "4"), ("mm", "5"), ("", "6")] {
        env.insert(k.to_string(), v.to_string());
    }
    assert_eq!(
        pairs(&env),
        vec![
            ("".to_string(), "6".to_string()),
            ("M".to_string(), "4".to_string()),
            ("a".to_string(), "3".to_string()),
            ("m".to_string(), "1".to_string()),
            ("mm".to_string(), "5".to_string()),
            ("z".to_string(), "2".to_string()),
        ]
    );
}

#[test]
fn envs_with_the_same_bindings_are_equal() {
    let mut a = Env::new();
    a.insert("X".to_string(), "1".to_string());
    a.insert("Y".to_string(), "2".to_string());
    let mut b = Env::new();
    b.insert("Y".to_string(), "0".to_string());
    b.insert("X".to_string(), "1".to_string());
    b.insert("Y".to_string(), "2".to_string());
    assert_eq!(a, b);
    assert_eq!(a.clone(), a);
    b.insert("Z".to_string(), "".to_string());
    assert_ne!(a, b);
}

#[test]
fn to_vec_gives_bindings() {
    let mut env = Env::new();
    env.insert("K".to_string(), "v".to_string());
    assert_eq!(env.to_vec(), vec![Binding { key: "K".to_string(), value: "v".to_string() }]);
}

#[test]
fn many_insertions_agree_with_a_map() {
    let mut env = Env::new();
    let mut map = std::collections::BTreeMap::new();
    let mut seed: u32 = 12345;
    for _ in 0..500 {
        seed = seed.wrapping_mul(1103515245).wrapping_add(12345);
        let key = format!("K{}", (seed >> 16) % 60);
        let value = format!("v{}", seed % 7);
        assert_eq!(env.insert(key.clone(), value.clone()), map.insert(key, value));
    }
    assert_eq!(env.len(), map.len());
    let mut expected = Vec::new();
    for (k, v) in &map {
        expected.push((k.clone(), v.clone()));
        assert_eq!(env.get(k), Some(v));
    }
    assert_eq!(pairs(&env), expected);
}
