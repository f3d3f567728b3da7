use convert_case::boundary::split;
use convert_case::case::Case;
use convert_case::chars::{chars_of, to_lower, to_upper};
use convert_case::pattern::{capitalize, join, toggle};
use convert_case::{possible_cases, Boundary, Casing, Pattern};
use std::collections::HashSet;

fn chars(s: &str) -> Vec<char> {
    s.chars().collect()
}

fn words(ws: &[&str]) -> Vec<Vec<char>> {
    ws.iter().map(|w| chars(w)).collect()
}

fn all_boundaries() -> Vec<Boundary> {
    vec![
        Boundary::Underscore,
        Boundary::Hyphen,
        Boundary::Space,
        Boundary::LowerUpper,
        Boundary::UpperDigit,
        Boundary::DigitUpper,
        Boundary::DigitLower,
        Boundary::LowerDigit,
        Boundary::Acronyms,
    ]
}

fn transitions() -> Vec<Boundary> {
    vec![
        Boundary::LowerUpper,
        Boundary::Acronyms,
        Boundary::LowerDigit,
        Boundary::UpperDigit,
        Boundary::DigitLower,
        Boundary::DigitUpper,
    ]
}

#[test]
fn empty_input_gives_no_words_and_empty_output() {
    assert!(split(&chars(""), &all_boundaries()).is_empty());
    for p in [
        Pattern::Lowercase,
        Pattern::Uppercase,
        Pattern::Capital,
        Pattern::Sentence,
        Pattern::Camel,
        Pattern::Alternating,
        Pattern::Toggle,
    ] {
        let rendered = p.mutate(&split(&chars(""), &all_boundaries()));
        assert!(join(&rendered, &chars("_")).is_empty());
    }
    assert_eq!("", "".to_case(Case::Camel));
}

#[test]
fn delimiters_collapse() {
    assert_eq!(
        split(&chars("__weird--var _name-"), &all_boundaries()),
        words(&["weird", "var", "name"])
    );
    assert_eq!("weird_var_name", "__weird--var _name-".to_case(Case::Snake));
}

#[test]
fn only_delimiters_give_nothing() {
    assert!(split(&chars("_- -_"), &all_boundaries()).is_empty());
    assert_eq!("", "_- -_".to_case(Case::Title));
}

#[test]
fn acronyms_are_grouped() {
    assert_eq!(
        split(&chars("XMLHttpRequest"), &transitions()),
        words(&["XML", "Http", "Request"])
    );
    assert_eq!(
        split(&chars("HTTPServer"), &transitions()),
        words(&["HTTP", "Server"])
    );
    assert_eq!(
        split(&chars("JSONData"), &transitions()),
        words(&["JSON", "Data"])
    );
    assert_eq!("xml_http_request", "XMLHttpRequest".to_case(Case::Snake));
    assert_eq!("io_stream", "IOStream".to_case(Case::Snake));
    assert_eq!("my_json_parser", "myJSONParser".to_case(Case::Snake));
}

#[test]
fn acronym_needs_a_following_lowercase() {
    assert_eq!(split(&chars("ABC"), &[Boundary::Acronyms].to_vec()), words(&["ABC"]));
    assert_eq!(
        split(&chars("ABc"), &[Boundary::Acronyms].to_vec()),
        words(&["A", "Bc"])
    );
}

#[test]
fn digit_transitions() {
    assert_eq!(split(&chars("E5150"), &all_boundaries()), words(&["E", "5150"]));
    assert_eq!("e_5150", "E5150".to_case(Case::Snake));
    assert_eq!(
        split(&chars("10,000Days"), &all_boundaries()),
        words(&["10,000", "Days"])
    );
    assert_eq!("10,000_days", "10,000Days".to_case(Case::Snake));
    assert_eq!(
        split(&chars("a1b2C3D"), &all_boundaries()),
        words(&["a", "1", "b", "2", "C", "3", "D"])
    );
}

#[test]
fn each_transition_alone() {
    assert_eq!(split(&chars("aB"), &vec![Boundary::LowerUpper]), words(&["a", "B"]));
    assert_eq!(split(&chars("Ab"), &vec![Boundary::LowerUpper]), words(&["Ab"]));
    assert_eq!(split(&chars("A1"), &vec![Boundary::UpperDigit]), words(&["A", "1"]));
    assert_eq!(split(&chars("1A"), &vec![Boundary::DigitUpper]), words(&["1", "A"]));
    assert_eq!(split(&chars("1a"), &vec![Boundary::DigitLower]), words(&["1", "a"]));
    assert_eq!(split(&chars("a1"), &vec![Boundary::LowerDigit]), words(&["a", "1"]));
    assert_eq!(split(&chars("a1"), &vec![Boundary::UpperDigit]), words(&["a1"]));
}

#[test]
fn inactive_delimiters_stay_in_words() {
    assert_eq!(
        split(&chars("my-kebab_var"), &vec![Boundary::Underscore]),
        words(&["my-kebab", "var"])
    );
    assert_eq!(
        "My-kebab-var",
        "my-kebab-var".from_case(Case::Snake).to_case(Case::Title)
    );
    assert_eq!(
        "2020-04-16 My Cat Cali",
        "2020-04-16_my_cat_cali".from_case(Case::Snake).to_case(Case::Title)
    );
    assert_eq!("2020 04 16 My Cat Cali", "2020-04-16_my_cat_cali".to_case(Case::Title));
    assert_eq!(
        "Ninety-nine Problems",
        "ninety-nine_problems".from_case(Case::Snake).to_case(Case::Title)
    );
}

#[test]
fn no_boundaries_give_one_word() {
    assert_eq!(split(&chars("aB1 c_d"), &Vec::new()), words(&["aB1 c_d"]));
}

#[test]
fn patterns_word_by_word() {
    let ws = words(&["hELLO", "wORLD", "again"]);
    assert_eq!(Pattern::Lowercase.mutate(&ws), words(&["hello", "world", "again"]));
    assert_eq!(Pattern::Uppercase.mutate(&ws), words(&["HELLO", "WORLD", "AGAIN"]));
    assert_eq!(Pattern::Capital.mutate(&ws), words(&["Hello", "World", "Again"]));
    assert_eq!(Pattern::Sentence.mutate(&ws), words(&["Hello", "world", "again"]));
    assert_eq!(Pattern::Camel.mutate(&ws), words(&["hello", "World", "Again"]));
    assert_eq!(Pattern::Toggle.mutate(&ws), words(&["hELLO", "wORLD", "aGAIN"]));
}

#[test]
fn alternating_runs_across_words() {
    let ws = words(&["abc", "de", "1f"]);
    assert_eq!(Pattern::Alternating.mutate(&ws), words(&["aBc", "De", "1F"]));
    assert_eq!("mY vArIaBlE", "my variable".to_case(Case::Alternating));
}

#[test]
fn capitalize_and_toggle_words() {
    assert_eq!(capitalize(&chars("wORD")), chars("Word"));
    assert_eq!(toggle(&chars("Word")), chars("wORD"));
    assert!(capitalize(&Vec::new()).is_empty());
    assert!(toggle(&Vec::new()).is_empty());
}

#[test]
fn case_mappings() {
    assert_eq!(to_lower(&chars("AbC")), chars("abc"));
    assert_eq!(to_upper(&chars("AbC")), chars("ABC"));
    assert_eq!(chars_of("héllo"), chars("héllo"));
}

#[test]
fn join_puts_the_delimiter_between() {
    assert_eq!(join(&words(&["a", "bc", "d"]), &chars("--")), chars("a--bc--d"));
    assert_eq!(join(&words(&["solo"]), &chars("_")), chars("solo"));
    assert!(join(&Vec::new(), &chars("_")).is_empty());
}

#[test]
fn non_ascii_letters() {
    assert_eq!("granat-äpfel", "GranatÄpfel".to_case(Case::Kebab));
    assert_eq!("ὀδυσσεύς", "ὈΔΥΣΣΕΎΣ".to_case(Case::Lower));
}

#[test]
fn punctuation_is_kept() {
    assert_eq!("HELLO, WORLD!", "Hello, world!".to_case(Case::Upper));
    assert_eq!("One\ntwo\nthree", "ONE\nTWO\nTHREE".to_case(Case::Title));
}

#[test]
fn library_examples() {
    assert_eq!("Ronnie James Dio", "ronnie james dio".to_case(Case::Title));
    assert_eq!("ronnieJamesDio", "Ronnie_James_dio".to_case(Case::Camel));
    assert_eq!("Ronnie-James-Dio", "RONNIE_JAMES_DIO".to_case(Case::Train));
    assert_eq!("my_kebab_like_variable", "myKebab-like-variable".to_case(Case::Snake));
}

#[test]
fn every_case_renders_the_example() {
    let expected = vec![
        (Case::Upper, "MY VARIABLE NAME"),
        (Case::Lower, "my variable name"),
        (Case::Title, "My Variable Name"),
        (Case::Toggle, "mY vARIABLE nAME"),
        (Case::Camel, "myVariableName"),
        (Case::Pascal, "MyVariableName"),
        (Case::UpperCamel, "MyVariableName"),
        (Case::Snake, "my_variable_name"),
        (Case::UpperSnake, "MY_VARIABLE_NAME"),
        (Case::ScreamingSnake, "MY_VARIABLE_NAME"),
        (Case::Kebab, "my-variable-name"),
        (Case::Cobol, "MY-VARIABLE-NAME"),
        (Case::Train, "My-Variable-Name"),
        (Case::Flat, "myvariablename"),
        (Case::UpperFlat, "MYVARIABLENAME"),
        (Case::Alternating, "mY vArIaBlE nAmE"),
    ];
    for (case, s) in expected {
        assert_eq!(s, "my_variable_name".to_case(case));
        assert_eq!(s, String::from("MyVariableName").to_case(case));
    }
}

#[test]
fn converting_twice_changes_nothing_more() {
    for case in [
        Case::Lower,
        Case::Upper,
        Case::Snake,
        Case::Title,
        Case::Cobol,
        Case::Train,
        Case::Flat,
        Case::UpperFlat,
    ] {
        for s in ["Some weird_Text-here 42x", "ABCDef9", "__a__", "x"] {
            let once = s.to_case(case);
            assert_eq!(once, once.to_case(case));
        }
    }
}

#[test]
fn detection_of_single_lowercase_word() {
    let found: HashSet<Case> = possible_cases(&"asdf".to_string()).into_iter().collect();
    let expected: HashSet<Case> =
        [Case::Lower, Case::Camel, Case::Snake, Case::Kebab, Case::Flat].into_iter().collect();
    assert_eq!(found, expected);
    assert_eq!(
        possible_cases(&"asdf".to_string()),
        vec![Case::Lower, Case::Camel, Case::Snake, Case::Kebab, Case::Flat]
    );
}

#[test]
fn fixed_point_test() {
    assert!("im_snake_case".is_case(Case::Snake));
    assert!(!"im_NOTsnake_case".is_case(Case::Snake));
    assert!(String::from("ImPascal").is_case(Case::Pascal));
    assert!(!String::from("imNotPascal").is_case(Case::Pascal));
}

#[test]
fn converter_stages_boundaries() {
    let mut c = "one_two-three".from_case(Case::Kebab);
    c.from_case(Case::Snake);
    assert_eq!("One Two-three", c.to_case(Case::Title));
    let c = "one_two-three".from_case(Case::Kebab);
    assert_eq!("one_twothree", c.convert());
    let c = "AbC_dE-f".from_case(Case::Snake);
    assert_eq!("AbCdE-f", c.convert());
}

#[test]
fn registry_lookups() {
    assert_eq!(Case::Snake.delim(), "_");
    assert_eq!(Case::Train.delim(), "-");
    assert_eq!(Case::Title.delim(), " ");
    assert_eq!(Case::Camel.delim(), "");
    assert_eq!(Case::Camel.pattern(), Pattern::Camel);
    assert_eq!(Case::Cobol.pattern(), Pattern::Uppercase);
    assert_eq!(Case::Kebab.boundaries(), vec![Boundary::Hyphen]);
    assert!(Case::UpperFlat.boundaries().is_empty());
    assert_eq!(Case::Pascal.boundaries(), transitions());
    assert_eq!(Case::deterministic_cases().len(), 16);
}

#[test]
fn pascal_twice_can_merge_words() {
    let once = "a b".to_case(Case::Pascal);
    assert_eq!("AB", once);
    assert_eq!("Ab", once.to_case(Case::Pascal));
    let once = "ab".to_case(Case::Toggle);
    assert_eq!("aB", once);
    assert_eq!("a b", once.to_case(Case::Toggle));
}

#[test]
fn title_twice_outside_ascii() {
    let once = "ß".to_case(Case::Title);
    assert_eq!("SS", once);
    assert_eq!("Ss", once.to_case(Case::Title));
}
