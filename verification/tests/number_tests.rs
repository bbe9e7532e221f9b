use plum::number::Number;
use plum::strutil::{chars_to_string, repeat_str, str_contains, str_to_chars};

fn whole(n: i64) -> Number {
    Number { num: n, den: 1 }
}

#[test]
fn rational_equality_ignores_representation() {
    assert_eq!(Number { num: 20, den: 10 }, whole(2));
    assert_ne!(Number { num: 21, den: 10 }, whole(2));
}

#[test]
fn checked_add_exact() {
    let r = whole(12).checked_add(whole(8)).unwrap();
    assert_eq!(r, whole(20));
}

#[test]
fn checked_add_overflow_is_none() {
    assert!(whole(i64::MAX).checked_add(whole(1)).is_none());
}

#[test]
fn checked_div_exact() {
    let r = whole(1).checked_div(whole(3)).unwrap();
    assert_eq!(r, Number { num: 1, den: 3 });
    assert!(whole(1).checked_div(whole(0)).is_none());
}

#[test]
fn checked_pow_exact() {
    let r = whole(3).checked_pow(2).unwrap();
    assert_eq!(r.num, 9);
    assert_eq!(r.den, 1);
    let inv = whole(2).checked_pow(-2).unwrap();
    assert_eq!(inv, Number { num: 1, den: 4 });
}

#[test]
fn checked_rem_follows_dividend() {
    let r = whole(-7).checked_rem(whole(3)).unwrap();
    assert_eq!(r, whole(-1));
}

#[test]
fn number_order() {
    assert!(Number { num: 1, den: 3 }.less_than(Number { num: 1, den: 2 }));
    assert!(!whole(2).less_than(whole(2)));
    assert!(whole(2).less_eq(whole(2)));
}

#[test]
fn number_integrality() {
    assert!(Number { num: 20, den: 10 }.is_int());
    assert!(!Number { num: 21, den: 10 }.is_int());
    assert_eq!(Number { num: -20, den: 10 }.to_i64(), -2);
}

#[test]
fn chars_round_trip() {
    let v = str_to_chars("nice");
    assert_eq!(v, vec!['n', 'i', 'c', 'e']);
    let s = chars_to_string(&v);
    assert_eq!(s, "nice".to_owned());
}

#[test]
fn substring_search() {
    assert!(str_contains(&"nice".to_owned(), &"ni".to_owned()));
    assert!(str_contains(&"nice".to_owned(), &"".to_owned()));
    assert!(!str_contains(&"nice".to_owned(), &"nico".to_owned()));
}

#[test]
fn repetition() {
    assert_eq!(repeat_str(&"ab".to_owned(), 3), "ababab".to_owned());
    assert_eq!(repeat_str(&"ab".to_owned(), 0), "".to_owned());
}
