use put_lang::text::{chars_of, contains_char, digit, push_decimal, spells, string_from};

fn decimal_of(n: usize) -> String {
    let mut s = String::new();
    push_decimal(&mut s, n);
    s
}

#[test]
fn decimal_numerals() {
    assert_eq!(decimal_of(0), "0");
    assert_eq!(decimal_of(7), "7");
    assert_eq!(decimal_of(10), "10");
    assert_eq!(decimal_of(1234567890), "1234567890");
    assert_eq!(decimal_of(usize::MAX), usize::MAX.to_string());
}

#[test]
fn decimal_is_appended() {
    let mut s = "line ".to_string();
    push_decimal(&mut s, 42);
    assert_eq!(s, "line 42");
}

#[test]
fn digits_are_the_ten_numerals() {
    let all: String = (0..10).map(digit).collect();
    assert_eq!(all, "0123456789");
}

#[test]
fn chars_of_keeps_every_character() {
    assert_eq!(chars_of("aé→z"), vec!['a', 'é', '→', 'z']);
    assert_eq!(chars_of(""), Vec::<char>::new());
}

#[test]
fn string_from_takes_the_range() {
    let chars = chars_of("hello world");
    assert_eq!(string_from(&chars, 6, 11), "world");
    assert_eq!(string_from(&chars, 3, 3), "");
    assert_eq!(string_from(&chars, 0, 11), "hello world");
}

#[test]
fn spells_compares_the_whole_range() {
    let chars = chars_of("while whil");
    assert!(spells(&chars, 0, 5, "while"));
    assert!(!spells(&chars, 0, 4, "while"));
    assert!(!spells(&chars, 6, 10, "while"));
    assert!(spells(&chars, 2, 2, ""));
}

#[test]
fn contains_char_finds_any_occurrence() {
    assert!(contains_char("1.5", '.'));
    assert!(contains_char(".", '.'));
    assert!(!contains_char("15", '.'));
    assert!(!contains_char("", '.'));
}
