use jsprint::decimal::{decimal_width, i64_to_string, parse_u64};
use jsprint::order::{slice_lt, str_eq, str_lt};
use jsprint::tokens::{is_white_space, join_with, split_on, split_words};

const SAMPLES: [&str; 12] =
    ["", "a", "A", "ab", "abc", "b", "é", "e", "z", "日本", "\u{10348}", "ab "];

#[test]
fn strings_are_ordered_as_std_orders_them() {
    for a in SAMPLES {
        for b in SAMPLES {
            assert_eq!(str_lt(a, b), a < b, "{:?} < {:?}", a, b);
            assert_eq!(str_eq(a, b), a == b, "{:?} == {:?}", a, b);
            assert_eq!(slice_lt(a.as_bytes(), b.as_bytes()), a.as_bytes() < b.as_bytes());
        }
    }
}

#[test]
fn a_prefix_comes_first() {
    assert!(str_lt("", "a"));
    assert!(str_lt("sp", "sps"));
    assert!(!str_lt("sps", "sp"));
    assert!(!str_lt("sp", "sp"));
}

#[test]
fn white_space_is_what_std_takes_for_it() {
    for code in 0u32..=0x10FFFF {
        if let Some(c) = char::from_u32(code) {
            assert_eq!(is_white_space(c), c.is_whitespace(), "U+{:04X}", code);
        }
    }
}

#[test]
fn fields_are_cut_at_every_separator() {
    for line in ["", " ", "a", "a 1 2", "a  1", " a", "a ", "as bob 1 2", "é ü", "a\t1"] {
        let expected: Vec<String> = line.split(' ').map(|s| s.to_string()).collect();
        assert_eq!(split_on(line, ' '), expected, "{:?}", line);
    }
    assert_eq!(split_on("a,b,,c", ','), vec!["a", "b", "", "c"]);
    assert_eq!(split_on("", ' '), vec![""]);
}

#[test]
fn words_are_runs_without_white_space() {
    for line in ["", " ", "a", "a 1 2", "a  1", " a", "a ", "\tbk\u{a0}1\n2 ", "é ü", "  "] {
        let expected: Vec<String> = line.split_whitespace().map(|s| s.to_string()).collect();
        assert_eq!(split_words(line), expected, "{:?}", line);
    }
    assert_eq!(split_words("  bk 12\t7 "), vec!["bk", "12", "7"]);
    assert!(split_words(" \n").is_empty());
}

#[test]
fn joining_puts_the_separator_between() {
    let none: Vec<String> = vec![];
    assert_eq!(join_with(&none, ","), "");
    assert_eq!(join_with(&vec!["a".to_string()], ","), "a");
    assert_eq!(join_with(&vec!["a".to_string(), "b".to_string(), "".to_string()], " AND "), "a AND b AND ");
}

#[test]
fn signed_numbers_are_written_with_their_sign() {
    assert_eq!(i64_to_string(0), "0");
    assert_eq!(i64_to_string(-1), "-1");
    assert_eq!(i64_to_string(42), "42");
    assert_eq!(i64_to_string(i64::MIN), "-9223372036854775808");
    assert_eq!(i64_to_string(i64::MAX), "9223372036854775807");
}

#[test]
fn width_is_the_number_of_digits() {
    assert_eq!(decimal_width(0), 1);
    assert_eq!(decimal_width(9), 1);
    assert_eq!(decimal_width(10), 2);
    assert_eq!(decimal_width(12345), 5);
    assert_eq!(decimal_width(u64::MAX), 20);
}

#[test]
fn sprint_identifiers_are_read_as_std_reads_them() {
    for text in ["0", "12", "+12", "0012", "18446744073709551615", "18446744073709551616",
        "99999999999999999999999", "", "+", "-", "-0", "1_0", "1.0", "٣", "１"]
    {
        assert_eq!(parse_u64(text), text.parse::<u64>().ok(), "{:?}", text);
    }
}
