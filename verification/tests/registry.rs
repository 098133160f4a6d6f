use xbridge::registry::Registry;

#[test]
fn registry_keeps_what_was_put_in_last() {
    let mut r: Registry<u32> = Registry::new();
    assert!(r.is_empty());
    r.insert("a", 1);
    r.insert("b", 2);
    r.insert("a", 3);
    assert_eq!(r.len(), 2);
    assert_eq!(r.get("a"), Some(&3));
    assert_eq!(r.get("b"), Some(&2));
    assert_eq!(r.get("c"), None);
    assert!(r.contains("b"));
    assert!(!r.contains("c"));
}

#[test]
fn registry_gives_back_what_is_taken_out() {
    let mut r: Registry<u32> = Registry::new();
    r.insert("a", 1);
    r.insert("b", 2);
    assert_eq!(r.remove("a"), Some(1));
    assert_eq!(r.remove("a"), None);
    assert_eq!(r.len(), 1);
    assert!(r.contains("b"));
    assert_eq!(r.remove("b"), Some(2));
    assert!(r.is_empty());
}

#[test]
fn registry_shows_every_name_once() {
    let mut r: Registry<u32> = Registry::new();
    for (i, name) in ["x", "y", "z", "x"].iter().enumerate() {
        r.insert(name, i as u32);
    }
    let mut seen: Vec<(String, u32)> = (0..r.len())
        .map(|i| {
            let (name, value) = r.at(i);
            (name.to_string(), *value)
        })
        .collect();
    seen.sort();
    assert_eq!(
        seen,
        vec![("x".to_string(), 3), ("y".to_string(), 1), ("z".to_string(), 2)]
    );
}
