use metronome::keyed::remove_keys;
use std::collections::HashMap;

#[test]
fn remove_keys_counts_present_entries() {
    let mut m: HashMap<u64, &str> = HashMap::new();
    m.insert(1, "a");
    m.insert(2, "b");
    m.insert(3, "c");
    let removed = remove_keys(&mut m, &vec![2, 7, 2, 3]);
    assert_eq!(removed, 2);
    assert_eq!(m.len(), 1);
    assert_eq!(m.get(&1), Some(&"a"));
}

#[test]
fn remove_no_keys() {
    let mut m: HashMap<u64, u64> = HashMap::new();
    m.insert(9, 90);
    assert_eq!(remove_keys(&mut m, &Vec::new()), 0);
    assert_eq!(m.get(&9), Some(&90));
}
