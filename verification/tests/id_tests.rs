use tasktrack::TaskId;

#[test]
fn test_new_id_format() {
    let id = TaskId::new();
    assert_eq!(id.full().len(), 8); // 8 base32 chars
    // All chars should be valid Crockford base32
    for c in id.full().chars() {
        assert!(
            "0123456789abcdefghjkmnpqrstvwxyz".contains(c),
            "Invalid char '{}' in ID",
            c
        );
    }
}

#[test]
fn test_unique_ids() {
    let id1 = TaskId::new();
    let id2 = TaskId::new();
    assert_ne!(id1, id2); // Should be different due to randomness
}

#[test]
fn test_prefix_matching_case_insensitive() {
    let id = TaskId::from_string("a1b2c3d4");
    assert!(id.matches_prefix("a1b2"));
    assert!(id.matches_prefix("A1B2")); // case-insensitive
    assert!(id.matches_prefix("a1"));
    assert!(id.matches_prefix("a"));
    assert!(!id.matches_prefix("b2"));
}

#[test]
fn test_shortest_unique_prefix() {
    let id1 = TaskId::from_string("a1b2c3d4");
    let id2 = TaskId::from_string("a1b2xxxx");
    let id3 = TaskId::from_string("xxxxxxxx");

    // id1 vs id2: need "a1b2c" to distinguish
    let others: Vec<&TaskId> = vec![&id2, &id3];
    assert_eq!(id1.shortest_unique_prefix(&others), "a1b2c");

    // id3 vs id1, id2: just "x" is enough
    let others: Vec<&TaskId> = vec![&id1, &id2];
    assert_eq!(id3.shortest_unique_prefix(&others), "x");

    // Single ID: just 1 char needed
    let others: Vec<&TaskId> = vec![];
    assert_eq!(id1.shortest_unique_prefix(&others), "a");
}

#[test]
fn test_prefix_of_equal_ids_is_single_char() {
    // identifiers literally equal to the candidate do not force longer prefixes
    let id1 = TaskId::from_string("a1b2c3d4");
    let id2 = TaskId::from_string("a1b2c3d4");
    let others: Vec<&TaskId> = vec![&id2];
    assert_eq!(id1.shortest_unique_prefix(&others), "a");
}

#[test]
fn test_matches_prefix_longer_than_id() {
    let id = TaskId::from_string("abc");
    assert!(!id.matches_prefix("abcd"));
    assert!(id.matches_prefix("abc"));
    assert!(id.matches_prefix(""));
}
