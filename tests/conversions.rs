use convert_case::{possible_cases, Case, Casing};
use std::collections::HashSet;

#[test]
fn lossless_against_lossless() {
    let examples = vec![
        (Case::Lower, "my variable 22 name"),
        (Case::Upper, "MY VARIABLE 22 NAME"),
        (Case::Title, "My Variable 22 Name"),
        (Case::Camel, "myVariable22Name"),
        (Case::Pascal, "MyVariable22Name"),
        (Case::Snake, "my_variable_22_name"),
        (Case::UpperSnake, "MY_VARIABLE_22_NAME"),
        (Case::Kebab, "my-variable-22-name"),
        (Case::Cobol, "MY-VARIABLE-22-NAME"),
        (Case::Toggle, "mY vARIABLE 22 nAME"),
        (Case::Train, "My-Variable-22-Name"),
        (Case::Alternating, "mY vArIaBlE 22 nAmE"),
    ];

    for (case_a, str_a) in examples.iter() {
        for (case_b, str_b) in examples.iter() {
            assert_eq!(*str_a, str_b.from_case(*case_b).to_case(*case_a))
        }
    }
}

#[test]
fn obvious_default_parsing() {
    let examples = vec![
        "SuperMario64Game",
        "super-mario64-game",
        "superMario64 game",
        "Super Mario 64_game",
        "SUPERMario 64-game",
        "super_mario-64 game",
    ];

    for example in examples {
        assert_eq!("super_mario_64_game", example.to_case(Case::Snake));
    }
}

#[test]
fn multiline_strings() {
    assert_eq!("One\ntwo\nthree", "one\ntwo\nthree".to_case(Case::Title));
}

#[test]
fn camel_case_acroynms() {
    assert_eq!(
        "xml_http_request",
        "XMLHttpRequest".from_case(Case::Camel).to_case(Case::Snake)
    );
    assert_eq!(
        "xml_http_request",
        "XMLHttpRequest".from_case(Case::UpperCamel).to_case(Case::Snake)
    );
    assert_eq!(
        "xml_http_request",
        "XMLHttpRequest".from_case(Case::Pascal).to_case(Case::Snake)
    );
}

#[test]
fn leading_tailing_delimeters() {
    assert_eq!(
        "leading_underscore",
        "_leading_underscore".from_case(Case::Snake).to_case(Case::Snake)
    );
    assert_eq!(
        "tailing_underscore",
        "tailing_underscore_".from_case(Case::Snake).to_case(Case::Snake)
    );
    assert_eq!(
        "leading_hyphen",
        "-leading-hyphen".from_case(Case::Kebab).to_case(Case::Snake)
    );
    assert_eq!(
        "tailing_hyphen",
        "tailing-hyphen-".from_case(Case::Kebab).to_case(Case::Snake)
    );
}

#[test]
fn double_delimeters() {
    assert_eq!(
        "many_underscores",
        "many___underscores".from_case(Case::Snake).to_case(Case::Snake)
    );
    assert_eq!(
        "many-underscores",
        "many---underscores".from_case(Case::Kebab).to_case(Case::Kebab)
    );
}

#[test]
fn early_word_boundaries() {
    assert_eq!("a_bagel", "aBagel".from_case(Case::Camel).to_case(Case::Snake));
}

#[test]
fn late_word_boundaries() {
    assert_eq!("team_a", "teamA".from_case(Case::Camel).to_case(Case::Snake));
}

#[test]
fn empty_string() {
    for (case_a, case_b) in Case::deterministic_cases()
        .into_iter()
        .zip(Case::deterministic_cases())
    {
        assert_eq!("", "".from_case(case_a).to_case(case_b));
    }
}

#[test]
fn owned_string() {
    assert_eq!(
        "test_variable",
        String::from("TestVariable").to_case(Case::Snake)
    )
}

#[test]
fn default_all_boundaries() {
    assert_eq!(
        "abc_abc_abc_abc_abc_abc",
        "ABC-abc_abcAbc ABCAbc".to_case(Case::Snake)
    );
}

#[test]
fn alternating_ignore_symbols() {
    assert_eq!("tHaT's", "that's".to_case(Case::Alternating));
}

#[test]
fn string_is_snake() {
    assert!("im_snake_case".is_case(Case::Snake));
    assert!(!"im_NOTsnake_case".is_case(Case::Snake));
}

#[test]
fn string_is_kebab() {
    assert!("im-kebab-case".is_case(Case::Kebab));
    assert!(!"im_not_kebab".is_case(Case::Kebab));
}

#[test]
fn string_is_snake_after_from() {
    assert!("im-kebab-case".from_case(Case::Upper).is_case(Case::Kebab));
    assert!(!"im_not_kebab".from_case(Case::Snake).is_case(Case::Kebab));
    assert!("im_kebab_actually".from_case(Case::Upper).is_case(Case::Kebab));
    assert!(!"im_not kebab_either".from_case(Case::Snake).is_case(Case::Kebab));
}

#[test]
fn detect_many_cases() {
    let lower_cases_vec = possible_cases(&"asdf".to_string());
    let lower_cases_set: HashSet<Case> = lower_cases_vec.into_iter().collect();
    let mut actual = HashSet::new();
    actual.insert(Case::Lower);
    actual.insert(Case::Camel);
    actual.insert(Case::Snake);
    actual.insert(Case::Kebab);
    actual.insert(Case::Flat);
    assert_eq!(lower_cases_set, actual);

    let lower_cases_vec = possible_cases(&"asdfCase".to_string());
    let lower_cases_set: HashSet<Case> = lower_cases_vec.into_iter().collect();
    let mut actual = HashSet::new();
    actual.insert(Case::Camel);
    assert_eq!(lower_cases_set, actual);
}

#[test]
fn detect_each_case() {
    let s = "My String Identifier".to_string();
    for case in Case::deterministic_cases() {
        let new_s = s.from_case(case).to_case(case);
        let possible = possible_cases(&new_s);
        println!("{} {:?} {:?}", new_s, case, possible);
        assert!(possible.iter().any(|c| c == &case));
    }
}
