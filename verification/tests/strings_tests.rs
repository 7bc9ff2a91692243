use vibe_kanban::strings::{i64_to_string, str_contains_ci, str_eq, u64_to_string};

#[test]
fn decimal_rendering() {
    assert_eq!(u64_to_string(0), "0");
    assert_eq!(u64_to_string(7), "7");
    assert_eq!(u64_to_string(105), "105");
    assert_eq!(u64_to_string(98765), "98765");
}

#[test]
fn case_insensitive_containment() {
    assert!(str_contains_ci("In Progress", "progress"));
    assert!(str_contains_ci("DONE", "done"));
    assert!(!str_contains_ci("Backlog", "done"));
}

#[test]
fn string_equality() {
    assert!(str_eq("abc", "abc"));
    assert!(!str_eq("abc", "abd"));
    assert!(!str_eq("abc", "ab"));
}

#[test]
fn signed_decimal_rendering() {
    assert_eq!(i64_to_string(0), "0");
    assert_eq!(i64_to_string(42), "42");
    assert_eq!(i64_to_string(-7), "-7");
    assert_eq!(i64_to_string(i64::MIN), "-9223372036854775808");
}
