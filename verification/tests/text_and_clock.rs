use pscheckwait::clock::{millis_or_zero, now_ms};
use pscheckwait::text::{chars_of, find_in, rfind_in, skip_leading_in, skip_trailing_in, str_eq, strip_prefix};
use pscheckwait::tokens::is_fresh;

#[test]
fn clock_reads_after_2020() {
    assert!(now_ms() > 1_577_836_800_000);
    assert_eq!(millis_or_zero(None), 0);
    assert_eq!(millis_or_zero(Some(1234)), 1234);
}

#[test]
fn freshness() {
    assert!(is_fresh(59_999, 0, 60_000));
    assert!(!is_fresh(60_000, 0, 60_000));
    assert!(is_fresh(i64::MIN, i64::MAX, 0));
}

#[test]
fn text_helpers() {
    assert_eq!(chars_of("가a"), vec!['가', 'a']);
    assert!(str_eq("ab", "ab"));
    assert!(!str_eq("ab", "abc"));
    assert_eq!(strip_prefix("Bearer x", "Bearer "), Some("x"));
    assert_eq!(strip_prefix("Bear", "Bearer "), None);
    let v = chars_of("a://b/c:d");
    let sep = chars_of("://");
    assert_eq!(find_in(&v, 0, v.len(), &sep), Some(1));
    assert_eq!(find_in(&v, 2, v.len(), &sep), None);
    assert_eq!(rfind_in(&v, 0, v.len(), ':'), Some(7));
    let w = chars_of("[[x]]");
    assert_eq!(skip_leading_in(&w, 0, 5, '['), 2);
    assert_eq!(skip_trailing_in(&w, 2, 5, ']'), 3);
}
