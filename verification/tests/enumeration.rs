use captcha_keyspace::keyspace::enumerate;
use std::collections::HashSet;

#[test]
fn enumerate_two_chars_length_two() {
    let alphabet = vec!['A', 'B'];
    let keys = enumerate(&alphabet, 2);
    assert_eq!(
        keys,
        vec![
            "AA".to_string(),
            "AB".to_string(),
            "BA".to_string(),
            "BB".to_string()
        ]
    );
}

#[test]
fn enumerate_length_zero_is_one_empty_key() {
    let alphabet = vec!['A', 'B', 'C'];
    let keys = enumerate(&alphabet, 0);
    assert_eq!(keys, vec![String::new()]);
}

#[test]
fn enumerate_covers_whole_keyspace() {
    let alphabet = vec!['X', 'Y', 'Z'];
    let keys = enumerate(&alphabet, 3);
    assert_eq!(keys.len(), 27);
    let distinct: HashSet<&String> = keys.iter().collect();
    assert_eq!(distinct.len(), 27);
    for key in &keys {
        assert_eq!(key.chars().count(), 3);
        assert!(key.chars().all(|c| alphabet.contains(&c)));
    }
}

#[test]
fn enumerate_single_char_alphabet() {
    let alphabet = vec!['A'];
    let keys = enumerate(&alphabet, 3);
    assert_eq!(keys, vec!["AAA".to_string()]);
}

#[test]
fn enumerate_first_character_varies_slowest() {
    let alphabet = vec!['0', '1'];
    let keys = enumerate(&alphabet, 3);
    assert_eq!(keys.len(), 8);
    assert_eq!(keys[0], "000");
    assert_eq!(keys[1], "001");
    assert_eq!(keys[2], "010");
    assert_eq!(keys[7], "111");
}
