use rapt::error::Error;
use rapt::source::SourcePackage;
use rapt::text::{
    chars_of, find_from, find_last, is_text, same_text, slice_of, split_chars, string_of,
    trim_chars,
};

fn split(s: &str, sep: &str) -> Vec<String> {
    split_chars(&chars_of(s), &chars_of(sep)).iter().map(|p| string_of(p)).collect()
}

#[test]
fn pieces_between_separators() {
    assert_eq!(split("a,b,,c", ","), vec!["a", "b", "", "c"]);
    assert_eq!(split("", ","), vec![""]);
    assert_eq!(split(",", ","), vec!["", ""]);
    assert_eq!(split("a::b:::c", "::"), vec!["a", "b", ":c"]);
    assert_eq!(split("aaa", "aa"), vec!["", "a"]);
    assert_eq!(split("abc", "abcd"), vec!["abc"]);
    assert_eq!(split("héllo wörld", " "), vec!["héllo", "wörld"]);
}

#[test]
fn places_of_a_text() {
    let s = chars_of("a-b-c");
    let hyphen = chars_of("-");
    assert_eq!(find_from(&s, &hyphen, 0), Some(1));
    assert_eq!(find_from(&s, &hyphen, 2), Some(3));
    assert_eq!(find_from(&s, &hyphen, 4), None);
    assert_eq!(find_last(&s, &hyphen, 5), Some(3));
    assert_eq!(find_last(&s, &hyphen, 3), Some(1));
    assert_eq!(find_last(&s, &hyphen, 1), None);
    assert_eq!(find_from(&s, &chars_of(""), 5), Some(5));
    assert_eq!(string_of(&slice_of(&s, 1, 4)), "-b-");
    assert!(is_text(&s, "a-b-c"));
    assert!(!is_text(&s, "a-b-"));
    assert!(same_text("x", "x"));
    assert!(!same_text("x", "y"));
}

#[test]
fn white_space_at_the_ends_goes() {
    assert_eq!(string_of(&trim_chars(&chars_of("  a b\t\n"))), "a b");
    assert_eq!(string_of(&trim_chars(&chars_of("\u{a0}\u{3000}x\u{2003}"))), "x");
    assert_eq!(string_of(&trim_chars(&chars_of("   "))), "");
    assert_eq!(string_of(&trim_chars(&chars_of(""))), "");
    assert_eq!(string_of(&trim_chars(&chars_of("\u{200b}x"))), "\u{200b}x");
}

#[test]
fn a_record_is_valid_where_it_has_a_name() {
    let mut p = SourcePackage::default();
    assert_eq!(p.verify(), Err(Error::MalformedInput("".to_string())));
    p.package = "a".to_string();
    assert_eq!(p.verify(), Ok(()));
}
