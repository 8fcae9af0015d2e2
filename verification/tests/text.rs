use fcpeg::text::{
    appended, clone_strings, contains_string, is_pascal_case, is_pascal_case_by, is_private_name,
    join_dotted, number_text, parse_number, qualify, str_is,
};

#[test]
fn pascal_case_accepts_an_uppercase_first_letter() {
    assert!(is_pascal_case(&"Main".to_string()));
    assert!(is_pascal_case(&"_Private".to_string()));
    assert!(!is_pascal_case(&"main".to_string()));
    assert!(!is_pascal_case(&"_private".to_string()));
    assert!(!is_pascal_case(&"_".to_string()));
    assert!(!is_pascal_case(&"".to_string()));
}

#[test]
fn qualified_names_join_three_parts_by_dots() {
    assert_eq!(qualify(&"".to_string(), &"Syntax".to_string(), &"FCPEG".to_string()), ".Syntax.FCPEG");
    assert_eq!(qualify(&"f2".to_string(), &"Main".to_string(), &"R".to_string()), "f2.Main.R");
}

#[test]
fn chains_join_by_dots() {
    assert_eq!(join_dotted(&vec![]), "");
    assert_eq!(join_dotted(&vec!["A".to_string()]), "A");
    assert_eq!(join_dotted(&vec!["A".to_string(), "B".to_string(), "C".to_string()]), "A.B.C");
}

#[test]
fn numbers_parse_as_decimal_digits() {
    assert_eq!(parse_number("0"), Some(0));
    assert_eq!(parse_number("42"), Some(42));
    assert_eq!(parse_number("+7"), Some(7));
    assert_eq!(parse_number("007"), Some(7));
    assert_eq!(parse_number(""), None);
    assert_eq!(parse_number("+"), None);
    assert_eq!(parse_number("4a"), None);
    assert_eq!(parse_number("-1"), None);
    assert_eq!(parse_number("18446744073709551615"), Some(usize::MAX));
    assert_eq!(parse_number("18446744073709551616"), None);
    assert_eq!(parse_number("99999999999999999999999"), None);
}

#[test]
fn numbers_print_as_decimal_digits() {
    assert_eq!(number_text(0), "0");
    assert_eq!(number_text(9), "9");
    assert_eq!(number_text(10), "10");
    assert_eq!(number_text(1234567890), "1234567890");
    assert_eq!(parse_number(&number_text(usize::MAX)), Some(usize::MAX));
}

#[test]
fn pascal_case_goes_by_the_first_two_characters() {
    assert!(!is_pascal_case_by(None, false, None));
    assert!(is_pascal_case_by(Some('A'), true, None));
    assert!(is_pascal_case_by(Some('A'), true, Some(false)));
    assert!(!is_pascal_case_by(Some('a'), false, Some(true)));
    assert!(is_pascal_case_by(Some('_'), false, Some(true)));
    assert!(!is_pascal_case_by(Some('_'), false, Some(false)));
    assert!(!is_pascal_case_by(Some('_'), false, None));
}

#[test]
fn pascal_case_knows_letters_beyond_ascii() {
    assert!(is_pascal_case(&"Ärger".to_string()));
    assert!(!is_pascal_case(&"ärger".to_string()));
    assert!(is_pascal_case(&"_Ärger".to_string()));
    assert!(!is_pascal_case(&"1st".to_string()));
    assert!(!is_pascal_case(&"__Twice".to_string()));
}

#[test]
fn private_names_start_with_an_underscore() {
    assert!(is_private_name(&"_Hidden".to_string()));
    assert!(is_private_name(&"_".to_string()));
    assert!(!is_private_name(&"Shown".to_string()));
    assert!(!is_private_name(&"".to_string()));
}

#[test]
fn lists_of_strings_are_searched_and_copied() {
    let list = vec!["a".to_string(), "b".to_string()];
    assert!(contains_string(&list, &"b".to_string()));
    assert!(!contains_string(&list, &"c".to_string()));
    assert!(!contains_string(&vec![], &"a".to_string()));
    assert_eq!(clone_strings(&list), list);
    assert!(str_is(&"Main".to_string(), "Main"));
    assert!(!str_is(&"Main".to_string(), "main"));
    assert_eq!(appended(&"ab".to_string(), "cd"), "abcd");
}
