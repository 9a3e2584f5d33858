use voxer::vox::text::{chars_of, parse_i32, parse_u8, split_spaces_exec};

fn chars(s: &str) -> Vec<char> {
    chars_of(s)
}

#[test]
fn chars_of_keeps_every_character() {
    assert_eq!(chars_of("a é1"), vec!['a', ' ', 'é', '1']);
    assert_eq!(chars_of(""), Vec::<char>::new());
}

#[test]
fn split_matches_std_split_on_single_spaces() {
    for s in ["1 2 3", "", " ", "a  b", " lead", "trail ", "one"] {
        let expected: Vec<Vec<char>> = s.split(' ').map(|p| p.chars().collect()).collect();
        assert_eq!(split_spaces_exec(&chars(s)), expected, "input {:?}", s);
    }
}

#[test]
fn parse_i32_accepts_signs_and_range() {
    assert_eq!(parse_i32(&chars("42")), Some(42));
    assert_eq!(parse_i32(&chars("+42")), Some(42));
    assert_eq!(parse_i32(&chars("-42")), Some(-42));
    assert_eq!(parse_i32(&chars("-0")), Some(0));
    assert_eq!(parse_i32(&chars("007")), Some(7));
    assert_eq!(parse_i32(&chars("2147483647")), Some(i32::MAX));
    assert_eq!(parse_i32(&chars("-2147483648")), Some(i32::MIN));
}

#[test]
fn parse_i32_rejects_what_std_rejects() {
    for s in ["", "+", "-", "2147483648", "-2147483649", "1a", " 1", "1 ", "+-1", "99999999999999999999"] {
        assert_eq!(parse_i32(&chars(s)), s.parse::<i32>().ok(), "input {:?}", s);
        assert_eq!(parse_i32(&chars(s)), None);
    }
}

#[test]
fn parse_u8_agrees_with_std() {
    for s in ["0", "255", "256", "+7", "-7", "-0", "", "+", "12x"] {
        assert_eq!(parse_u8(&chars(s)), s.parse::<u8>().ok(), "input {:?}", s);
    }
}
