use license_page::store::{TextEntry, TextStore};
use license_page::strutil::{str_compare, usize_to_string, Rank};

fn entry(key: &str, text: &str) -> TextEntry {
    TextEntry { key: key.to_string(), text: text.to_string() }
}

#[test]
fn sorted_store_accepted_and_lookup_works() {
    let store = TextStore::from_entries(vec![
        entry("apache-2.0", "text of apache"),
        entry("mit", "text of mit"),
        entry("zlib", "text of zlib"),
    ])
    .expect("a sorted lowercase table is accepted");
    assert!(store.check_well_formed());
    assert_eq!(store.len(), 3);
    // Every key present returns the paired value; lookups go through the
    // lowercased identifier.
    assert_eq!(store.lookup("apache-2.0"), Some("text of apache"));
    assert_eq!(store.lookup("MIT"), Some("text of mit"));
    assert_eq!(store.lookup("mit"), Some("text of mit"));
    assert_eq!(store.lookup("Zlib"), Some("text of zlib"));
    // An absent key is no error: it simply is not found.
    assert_eq!(store.lookup("bsd-3-clause"), None);
    assert_eq!(store.lookup(""), None);
}

#[test]
fn unsorted_store_refused() {
    let r = TextStore::from_entries(vec![entry("mit", "m"), entry("apache-2.0", "a")]);
    assert!(r.is_none());
}

#[test]
fn non_lowercase_store_refused() {
    let r = TextStore::from_entries(vec![entry("MIT", "m")]);
    assert!(r.is_none());
}

#[test]
fn duplicate_key_store_refused() {
    let r = TextStore::from_entries(vec![entry("mit", "m"), entry("mit", "m2")]);
    assert!(r.is_none());
}

#[test]
fn empty_store_accepted() {
    let store = TextStore::from_entries(Vec::new()).expect("an empty table is sorted");
    assert_eq!(store.len(), 0);
    assert_eq!(store.lookup("mit"), None);
}

#[test]
fn string_comparison_is_byte_order() {
    assert!(matches!(str_compare("Apache-2.0", "MIT"), Rank::Less));
    assert!(matches!(str_compare("MIT", "MIT"), Rank::Equal));
    assert!(matches!(str_compare("Zlib", "MIT"), Rank::Greater));
    assert!(matches!(str_compare("", "a"), Rank::Less));
    assert!(matches!(str_compare("ab", "a"), Rank::Greater));
}

#[test]
fn decimal_rendering() {
    assert_eq!(usize_to_string(0), "0");
    assert_eq!(usize_to_string(1), "1");
    assert_eq!(usize_to_string(42), "42");
    assert_eq!(usize_to_string(1234567), "1234567");
}
