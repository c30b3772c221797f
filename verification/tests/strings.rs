use qobuz::strutil;

#[test]
fn str_eq_compares_exactly() {
    assert!(strutil::str_eq("", ""));
    assert!(strutil::str_eq("helium", "helium"));
    assert!(!strutil::str_eq("helium", "Helium"));
    assert!(!strutil::str_eq("helium", "heliu"));
    assert!(strutil::str_eq("наушники", "наушники"));
}

#[test]
fn eq_fold_ignores_ascii_case() {
    assert!(strutil::eq_fold("AVRALIZE", "avralize"));
    assert!(strutil::eq_fold("MiXeD", "mIxEd"));
    assert!(!strutil::eq_fold("avralize", "avralize "));
    assert!(!strutil::eq_fold("abc", "abd"));
}

#[test]
fn trim_removes_surrounding_whitespace() {
    assert_eq!(strutil::trim("  avralize \t\n"), "avralize");
    assert_eq!(strutil::trim("avralize"), "avralize");
    assert_eq!(strutil::trim("   \t  "), "");
    assert_eq!(strutil::trim(""), "");
    assert_eq!(strutil::trim(" a b "), "a b");
}

#[test]
fn contains_str_finds_members() {
    let ids = vec!["a1".to_string(), "b2".to_string()];
    assert!(strutil::contains_str(&ids, "a1"));
    assert!(strutil::contains_str(&ids, "b2"));
    assert!(!strutil::contains_str(&ids, "c3"));
    assert!(!strutil::contains_str(&Vec::new(), "a1"));
}
