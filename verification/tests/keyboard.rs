use neothesia::keyboard::{is_black_key, KeyboardRange};
use std::collections::HashSet;

#[test]
fn black_keys_of_an_octave() {
    let black: Vec<u8> = (60u8..72).filter(|k| is_black_key(*k)).collect();
    assert_eq!(black, vec![61, 63, 66, 68, 70]);
}

#[test]
fn black_keys_at_the_ends() {
    assert!(!is_black_key(0));
    assert!(!is_black_key(127));
    assert!(is_black_key(255));
    assert!(is_black_key(126));
    assert!(is_black_key(1));
}

#[test]
fn a_range_has_the_keys_it_was_made_of() {
    let keys: HashSet<u8> = (21u8..=108).collect();
    let range = KeyboardRange::new(keys);
    assert!(range.contains(21));
    assert!(range.contains(108));
    assert!(!range.contains(20));
    assert!(!range.contains(109));
}
