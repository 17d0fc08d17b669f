use hazard_analyzer::text::{
    ascii_lower, ascii_upper, chars_of, contains, find_comma, matches_at, second_argument,
    slice_chars, string_of, to_ascii_uppercase, to_camel_case, to_snake_case, trim,
};

fn chars(s: &str) -> Vec<char> {
    s.chars().collect()
}

#[test]
fn camel_case_of_a_file_stem() {
    assert_eq!(to_camel_case("new_device"), "NewDevice");
    assert_eq!(to_camel_case("methods_device"), "MethodsDevice");
    assert_eq!(to_camel_case("fridge"), "Fridge");
    assert_eq!(to_camel_case("light"), "Light");
}

#[test]
fn camel_case_edge_cases() {
    assert_eq!(to_camel_case(""), "");
    assert_eq!(to_camel_case("_"), "");
    assert_eq!(to_camel_case("__a__b_"), "AB");
    assert_eq!(to_camel_case("already_Upper"), "AlreadyUpper");
    assert_eq!(to_camel_case("a1_2b"), "A12b");
    // Only ASCII letters change case.
    assert_eq!(to_camel_case("\u{e9}t\u{e9}_\u{e9}"), "\u{e9}t\u{e9}\u{e9}");
}

#[test]
fn snake_case_of_an_enum_member() {
    assert_eq!(to_snake_case("FirstAction"), "first_action");
    assert_eq!(to_snake_case("IncreaseTemperature"), "increase_temperature");
    assert_eq!(to_snake_case("Toggle"), "toggle");
}

#[test]
fn snake_case_edge_cases() {
    assert_eq!(to_snake_case(""), "");
    assert_eq!(to_snake_case("already_snake"), "already_snake");
    assert_eq!(to_snake_case("ABC"), "a_b_c");
    assert_eq!(to_snake_case("aB"), "a_b");
    // An upper-case letter outside ASCII gets its underscore and keeps its case.
    assert_eq!(to_snake_case("a\u{c9}"), "a_\u{c9}");
}

#[test]
fn upper_case_of_an_action_name() {
    assert_eq!(to_ascii_uppercase("first_action"), "FIRST_ACTION");
    assert_eq!(to_ascii_uppercase("Mixed1z"), "MIXED1Z");
    assert_eq!(to_ascii_uppercase("\u{e9}a"), "\u{e9}A");
    assert_eq!(to_ascii_uppercase(""), "");
}

#[test]
fn ascii_case_of_single_characters() {
    assert_eq!(ascii_upper('a'), 'A');
    assert_eq!(ascii_upper('z'), 'Z');
    assert_eq!(ascii_upper('A'), 'A');
    assert_eq!(ascii_upper('{'), '{');
    assert_eq!(ascii_upper('`'), '`');
    assert_eq!(ascii_lower('A'), 'a');
    assert_eq!(ascii_lower('Z'), 'z');
    assert_eq!(ascii_lower('['), '[');
    assert_eq!(ascii_lower('@'), '@');
    assert_eq!(ascii_lower('q'), 'q');
}

#[test]
fn characters_and_back() {
    assert_eq!(chars_of("a\u{e9}z"), vec!['a', '\u{e9}', 'z']);
    assert_eq!(chars_of(""), Vec::<char>::new());
    assert_eq!(string_of(&vec!['x', '\u{1F600}', 'y']), "x\u{1F600}y");
    assert_eq!(string_of(&Vec::new()), "");
}

#[test]
fn substring_search() {
    assert!(contains(&chars("const FIRST_ACTION: Hazard"), &chars("FIRST_ACTION")));
    assert!(contains(&chars("abc"), &chars("")));
    assert!(contains(&chars(""), &chars("")));
    assert!(contains(&chars("abc"), &chars("abc")));
    assert!(contains(&chars("abc"), &chars("c")));
    assert!(!contains(&chars("abc"), &chars("abcd")));
    assert!(!contains(&chars("abc"), &chars("ca")));
    assert!(!contains(&chars(""), &chars("a")));
    // Case matters.
    assert!(!contains(&chars("first_action"), &chars("FIRST_ACTION")));
}

#[test]
fn match_at_an_offset() {
    assert!(matches_at(&chars("NewDevice::new("), &chars("::new"), 9));
    assert!(!matches_at(&chars("NewDevice::new("), &chars("::new"), 8));
    assert!(!matches_at(&chars("abc"), &chars("bc"), 2));
    assert!(!matches_at(&chars("abc"), &chars("bc"), 7));
    assert!(matches_at(&chars("abc"), &chars(""), 3));
    assert!(!matches_at(&chars("abc"), &chars(""), 4));
}

#[test]
fn second_argument_of_a_list() {
    assert_eq!(
        second_argument("optional_action_config, optional_action"),
        Some("optional_action".to_string())
    );
    assert_eq!(
        second_argument("cfg,\n    name , &[Hazard::FireHazard, Hazard::PowerSurge]"),
        Some("name".to_string())
    );
}

#[test]
fn second_argument_edge_cases() {
    assert_eq!(second_argument("only_one"), None);
    assert_eq!(second_argument(""), None);
    assert_eq!(second_argument(","), Some(String::new()));
    assert_eq!(second_argument("a,"), Some(String::new()));
    assert_eq!(second_argument("a, ,b"), Some(String::new()));
    assert_eq!(second_argument(",b"), Some("b".to_string()));
    // White space inside the argument stays.
    assert_eq!(second_argument("a,  b c  ,d"), Some("b c".to_string()));
    // No-break space is white space too.
    assert_eq!(second_argument("a,\u{a0}b\u{2003}"), Some("b".to_string()));
}

#[test]
fn trimming() {
    assert_eq!(trim(&chars("  a b \n")), chars("a b"));
    assert_eq!(trim(&chars("   ")), chars(""));
    assert_eq!(trim(&chars("")), chars(""));
    assert_eq!(trim(&chars("x")), chars("x"));
}

#[test]
fn commas_and_slices() {
    let v = chars("ab,cd,e");
    assert_eq!(find_comma(&v, 0), 2);
    assert_eq!(find_comma(&v, 2), 2);
    assert_eq!(find_comma(&v, 3), 5);
    assert_eq!(find_comma(&v, 6), 7);
    assert_eq!(find_comma(&v, 7), 7);
    assert_eq!(slice_chars(&v, 3, 5), chars("cd"));
    assert_eq!(slice_chars(&v, 7, 7), chars(""));
    assert_eq!(slice_chars(&v, 0, 7), v);
}

#[test]
fn camel_name_comes_back_from_its_snake_form() {
    for name in ["FirstAction", "Toggle", "A", "AB", "IncreaseTemperature", "Mode2On", "X1"] {
        assert_eq!(to_camel_case(&to_snake_case(name)), name);
    }
    // A name that starts in lower case does not come back.
    assert_eq!(to_camel_case(&to_snake_case("aB")), "AB");
}
