use trm_omega::named::{bytes_less, name_less, str_same, NameMap};
use trm_omega::wire::{read_bytes, read_words, write_bytes, write_words};

#[test]
fn entries_stand_in_byte_order_whatever_the_order_they_came_in() {
    let mut m = NameMap::new();
    for (n, v) in [("b", 1), ("a", 2), ("\u{e9}", 3), ("ab", 4), ("", 5)] {
        m.insert(n.to_string(), v);
    }
    let names: Vec<&str> = (0..m.len()).map(|i| m.name_at(i).as_str()).collect();
    assert_eq!(names, vec!["", "a", "ab", "b", "\u{e9}"]);
    assert_eq!(*m.value_at(1), 2);
}

#[test]
fn a_name_holds_one_value() {
    let mut m = NameMap::new();
    m.insert("a".to_string(), 1);
    m.insert("a".to_string(), 2);
    assert_eq!(m.len(), 1);
    assert_eq!(m.get("a"), Some(&2));
    assert_eq!(m.get("b"), None);
    m.set_value_at(0, 7);
    assert_eq!(m.get("a"), Some(&7));
    assert_eq!(m.remove("a"), Some(7));
    assert_eq!(m.remove("a"), None);
    m.insert("x".to_string(), 1);
    m.clear();
    assert_eq!(m.len(), 0);
}

#[test]
fn names_compare_by_bytes() {
    assert!(bytes_less(&[1, 2], &[1, 3]));
    assert!(bytes_less(&[1], &[1, 0]));
    assert!(!bytes_less(&[2], &[1, 9]));
    assert!(!bytes_less(&[1], &[1]));
    assert!(name_less("Z", "a"));
    assert!(!name_less("a", "a"));
    assert!(str_same("abc", "abc"));
    assert!(!str_same("abc", "abd"));
    assert!(!str_same("abc", "ab"));
}

#[test]
fn words_are_little_endian() {
    let mut out = vec![9u8];
    write_words(&mut out, &vec![1, 0x01020304]);
    assert_eq!(out, vec![9, 1, 0, 0, 0, 4, 3, 2, 1]);
    assert_eq!(read_words(&out, 1, 2), Some(vec![1, 0x01020304]));
    assert_eq!(read_words(&out, 2, 2), None);
    assert_eq!(read_words(&out, 9, 0), Some(vec![]));
    write_bytes(&mut out, &[5, 6]);
    assert_eq!(read_bytes(&out, 9, 2), Some(vec![5, 6]));
    assert_eq!(read_bytes(&out, 9, 3), None);
}
