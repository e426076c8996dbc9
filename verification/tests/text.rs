use app_store_scraper::text::{
    i64_to_string, join_commas, parse_i64, split_commas, str_eq, u64_to_string,
};

fn strings(parts: &[&str]) -> Vec<String> {
    parts.iter().map(|part| part.to_string()).collect()
}

#[test]
fn strings_compare_by_their_characters() {
    assert!(str_eq("", ""));
    assert!(str_eq("résumé", "résumé"));
    assert!(!str_eq("résumé", "resume"));
    assert!(!str_eq("a", "ab"));
    assert!(!str_eq("ab", "a"));
}

#[test]
fn integers_are_rendered_in_decimal() {
    assert_eq!(i64_to_string(0), "0");
    assert_eq!(i64_to_string(7), "7");
    assert_eq!(i64_to_string(10), "10");
    assert_eq!(i64_to_string(-1), "-1");
    assert_eq!(i64_to_string(-120), "-120");
    assert_eq!(i64_to_string(i64::MAX), i64::MAX.to_string());
    assert_eq!(i64_to_string(i64::MIN), i64::MIN.to_string());
    assert_eq!(u64_to_string(u64::MAX), u64::MAX.to_string());
}

#[test]
fn integers_are_read_as_std_reads_them() {
    let texts = [
        "", "+", "-", "0", "-0", "+0", "5", "+5", "-5", "007", "--5", "+-5", "5-", " 5", "5 ", "5.0",
        "1e3", "٣", "x", "9223372036854775807", "9223372036854775808", "-9223372036854775808",
        "-9223372036854775809", "99999999999999999999999999999999999999999999", "00000000000000000000000001",
    ];
    for text in texts.iter() {
        assert_eq!(parse_i64(text), text.parse::<i64>().ok(), "{}", text);
    }
}

#[test]
fn rendered_integers_read_back() {
    for v in [0, 1, -1, 9, 10, -10, 12345, i64::MAX, i64::MIN].iter() {
        assert_eq!(parse_i64(&i64_to_string(*v)), Some(*v));
    }
}

#[test]
fn lists_are_joined_with_commas() {
    assert_eq!(join_commas(&strings(&[])), "");
    assert_eq!(join_commas(&strings(&["a"])), "a");
    assert_eq!(join_commas(&strings(&["a", "", "c"])), "a,,c");
}

#[test]
fn lists_are_split_at_commas() {
    assert_eq!(split_commas(""), strings(&[""]));
    assert_eq!(split_commas("389801252"), strings(&["389801252"]));
    assert_eq!(split_commas("é,bc,"), strings(&["é", "bc", ""]));
    assert_eq!(split_commas(",,"), strings(&["", "", ""]));
}

#[test]
fn splitting_undoes_joining_and_joining_undoes_splitting() {
    let parts = strings(&["389801252", "951627425", "", "x"]);
    assert_eq!(split_commas(&join_commas(&parts)), parts);
    assert_eq!(join_commas(&split_commas("a,,b,")), "a,,b,");
}
