use ws_kit::directory::Directory;
use ws_kit::roster::Roster;
use ws_kit::text::{find, same_text, split, split_once, to_chars, to_text, trim, CharSet};

#[test]
fn directory_keeps_order_and_places() {
    let mut d: Directory<u32> = Directory::new();
    for (i, key) in ["x", "y", "z"].iter().enumerate() {
        assert_eq!(d.find(key), None);
        d.push(key, i as u32);
    }
    assert_eq!(d.len(), 3);
    assert_eq!(d.find("z"), Some(2));
    *d.get_mut(1) = 10;
    assert_eq!(*d.get(1), 10);
    assert_eq!(d.remove(0), 0);
    assert_eq!(d.find("x"), None);
    assert_eq!(d.find("y"), Some(0));
    assert_eq!(d.find("z"), Some(1));
    assert_eq!(d.key(0), "y");
    assert_eq!(*d.get(0), 10);
}

#[test]
fn roster_of_members() {
    let mut r = Roster::new();
    assert_eq!(r.len(), 0);
    r.insert(1, "a".to_string());
    r.insert(2, "b".to_string());
    r.insert(1, "c".to_string());
    let mut entries = r.entries();
    entries.sort();
    assert_eq!(entries, [(1, "c".to_string()), (2, "b".to_string())]);
    assert!(r.remove(2));
    assert!(!r.remove(2));
    assert!(r.contains(1));
    assert!(!r.contains(2));
    assert_eq!(r.len(), 1);
}

#[test]
fn texts_as_characters() {
    let chars = to_chars("a, b,,é");
    let parts: Vec<String> = split(&chars, ',').into_iter().map(to_text).collect();
    assert_eq!(parts, ["a", " b", "", "é"]);
    assert_eq!(find(&chars, &[',', ',']), Some(4));
    assert_eq!(find(&chars, &['x']), None);
    assert_eq!(find(&chars, &[]), Some(0));
    let (head, rest) = split_once(&chars, &[',']).unwrap();
    assert_eq!((to_text(head), to_text(rest)), ("a".to_string(), " b,,é".to_string()));
    assert_eq!(to_text(trim(&to_chars(" \u{3000}x "), CharSet::WhiteSpace)), "x");
    assert_eq!(to_text(trim(&to_chars("??"), CharSet::Just('?'))), "");
    assert!(same_text("é", "é"));
    assert!(!same_text("é", "e"));
}
