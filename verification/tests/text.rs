use random_pickfile::text::{chars_of, contains_chars, find_first, push_decimal};

fn chars(s: &str) -> Vec<char> {
    s.chars().collect()
}

#[test]
fn find_first_occurrence() {
    assert_eq!(find_first(&chars("a.jpg.jpg"), &chars(".jpg")), Some(1));
    assert_eq!(find_first(&chars("abc"), &chars("")), Some(0));
    assert_eq!(find_first(&chars("abc"), &chars("abcd")), None);
    assert_eq!(find_first(&chars("abc"), &chars("x")), None);
    assert!(contains_chars(&chars("photo_#_3"), &chars("_#_")));
    assert!(!contains_chars(&chars("photo_#3"), &chars("_#_")));
}

#[test]
fn decimal_digits() {
    let mut s = String::from("n");
    push_decimal(&mut s, 0);
    assert_eq!(s, "n0");
    let mut s = String::new();
    push_decimal(&mut s, 1907);
    assert_eq!(s, "1907");
    let mut s = String::new();
    push_decimal(&mut s, usize::MAX);
    assert_eq!(s, usize::MAX.to_string());
}

#[test]
fn chars_of_strings() {
    let v = chars_of("héllo");
    assert_eq!(v, vec!['h', 'é', 'l', 'l', 'o']);
    assert_eq!(chars_of(""), vec![]);
}
