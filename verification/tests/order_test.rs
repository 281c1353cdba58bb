use rsbrowse::order::{cmp_labels, compare_text, is_field_like, label_precedes, sort_by_label};
use std::cmp::Ordering::{Equal, Greater, Less};

#[test]
fn cmp_test() {
    assert_eq!(cmp_labels("a: a", "b: b"), Less);
    assert_eq!(cmp_labels("a", "z: z"), Greater);
    assert_eq!(cmp_labels("a", "b"), Less);
}

#[test]
fn cmp_labels_puts_fields_first() {
    assert_eq!(cmp_labels("z: z", "a"), Less);
    assert_eq!(cmp_labels("x: i32", "x: i32"), Equal);
    assert_eq!(cmp_labels("b", "a"), Greater);
    assert_eq!(cmp_labels("", ""), Equal);
    assert_eq!(cmp_labels("", "a"), Less);
}

#[test]
fn cmp_labels_agrees_with_the_order_of_strings() {
    let labels = ["", "a", "ab", "b", "fn f", "fn g", "é", "zz", "日本", "a:b", "😀"];
    for a in labels {
        for b in labels {
            assert_eq!(compare_text(a, b), a.cmp(b), "{a:?} against {b:?}");
            assert_eq!(cmp_labels(a, b), a.cmp(b), "{a:?} against {b:?}");
        }
    }
}

#[test]
fn field_mark_is_a_colon_and_a_space() {
    assert!(is_field_like("a: b"));
    assert!(is_field_like(": "));
    assert!(is_field_like("x::y: z"));
    assert!(!is_field_like("a:b"));
    assert!(!is_field_like("a :b"));
    assert!(!is_field_like("std::io::Error"));
    assert!(!is_field_like(":"));
    assert!(!is_field_like(""));
    assert!(is_field_like("é: ü"));
}

#[test]
fn label_precedes_is_strict() {
    assert!(label_precedes("a: a", "a"));
    assert!(!label_precedes("a", "a: a"));
    assert!(!label_precedes("a", "a"));
    assert!(label_precedes("a", "aa"));
}

#[test]
fn sort_by_label_orders_and_keeps_ties_in_place() {
    let mut v: Vec<(String, u32)> = vec![
        ("mod y".to_string(), 0),
        ("impl Self".to_string(), 1),
        ("b: u8".to_string(), 2),
        ("mod y".to_string(), 3),
        ("a: u8".to_string(), 4),
        ("enum E".to_string(), 5),
        ("mod y".to_string(), 6),
    ];
    sort_by_label(&mut v);
    let got: Vec<(&str, u32)> = v.iter().map(|(l, n)| (l.as_str(), *n)).collect();
    assert_eq!(
        got,
        vec![
            ("a: u8", 4),
            ("b: u8", 2),
            ("enum E", 5),
            ("impl Self", 1),
            ("mod y", 0),
            ("mod y", 3),
            ("mod y", 6),
        ]
    );
}

#[test]
fn sort_by_label_of_nothing_and_of_one() {
    let mut none: Vec<(String, ())> = vec![];
    sort_by_label(&mut none);
    assert!(none.is_empty());
    let mut one = vec![("x".to_string(), 1)];
    sort_by_label(&mut one);
    assert_eq!(one, vec![("x".to_string(), 1)]);
}
