use evdev::KeyCode;
use kmrebind::config::{default_key_names, key_code_for_upper_name, parse_key_names};
use kmrebind::config::{key_code_of_name, key_name_to_code};
use kmrebind::config::{KEY_0, KEY_A, KEY_DOT, KEY_ESC, KEY_RIGHTALT, KEY_SLASH, KEY_SPACE};
use std::str::FromStr;

#[test]
fn parse_default_keys() {
    let names = vec!["KEY_DOT".to_string(), "KEY_SLASH".to_string()];
    let codes = parse_key_names(&names);
    assert_eq!(codes.len(), 2);
    assert!(codes.contains(&KeyCode::KEY_DOT.0));
    assert!(codes.contains(&KeyCode::KEY_SLASH.0));
}

#[test]
fn default_key_names_parse_to_dot_slash() {
    let names = default_key_names();
    let codes = parse_key_names(&names);
    assert_eq!(codes.len(), 2);
    assert!(codes.contains(&KeyCode::KEY_DOT.0));
    assert!(codes.contains(&KeyCode::KEY_SLASH.0));
}

#[test]
fn parse_without_prefix() {
    let names = vec!["DOT".to_string(), "SLASH".to_string()];
    let codes = parse_key_names(&names);
    assert_eq!(codes.len(), 2);
    assert!(codes.contains(&KeyCode::KEY_DOT.0));
    assert!(codes.contains(&KeyCode::KEY_SLASH.0));
}

#[test]
fn parse_invalid_skipped() {
    let names = vec!["INVALID_KEY".to_string()];
    let codes = parse_key_names(&names);
    assert!(codes.is_empty());
}

#[test]
fn parse_mixed_valid_invalid() {
    let names = vec![
        "KEY_DOT".to_string(),
        "NO_SUCH_KEY".to_string(),
        "KEY_SPACE".to_string(),
    ];
    let codes = parse_key_names(&names);
    assert_eq!(codes.len(), 2);
    assert!(codes.contains(&KeyCode::KEY_DOT.0));
    assert!(codes.contains(&KeyCode::KEY_SPACE.0));
}

#[test]
fn parse_empty() {
    let codes = parse_key_names(&[]);
    assert!(codes.is_empty());
}

#[test]
fn parse_case_insensitive_suffix() {
    // After the "KEY_" prefix, the suffix is matched case-insensitively.
    let names = vec!["KEY_dot".to_string(), "KEY_slash".to_string()];
    let codes = parse_key_names(&names);
    assert_eq!(codes.len(), 2);
    assert!(codes.contains(&KeyCode::KEY_DOT.0));
    assert!(codes.contains(&KeyCode::KEY_SLASH.0));
}

#[test]
fn parse_trims_whitespace() {
    let names = vec!["  KEY_DOT  ".to_string(), "  SLASH  ".to_string()];
    let codes = parse_key_names(&names);
    assert_eq!(codes.len(), 2);
    assert!(codes.contains(&KeyCode::KEY_DOT.0));
    assert!(codes.contains(&KeyCode::KEY_SLASH.0));
}

/// Every name of the table maps to the code that evdev gives the same name.
#[test]
fn table_codes_agree_with_evdev() {
    let names = [
        "DOT", "SLASH", "SPACE", "ENTER", "A", "B", "C", "D", "E", "F", "G", "H", "I", "J", "K",
        "L", "M", "N", "O", "P", "Q", "R", "S", "T", "U", "V", "W", "X", "Y", "Z", "ESC", "TAB",
        "LEFTSHIFT", "RIGHTSHIFT", "LEFTCTRL", "RIGHTCTRL", "LEFTALT", "RIGHTALT", "CAPSLOCK",
        "1", "2", "3", "4", "5", "6", "7", "8", "9", "0",
    ];
    for name in names {
        let expected = KeyCode::from_str(&format!("KEY_{}", name)).unwrap().0;
        assert_eq!(key_code_for_upper_name(name), Some(expected), "{}", name);
        let codes = parse_key_names(&[name.to_string()]);
        assert_eq!(codes.len(), 1, "{}", name);
        assert!(codes.contains(&expected), "{}", name);
    }
    assert_eq!(KEY_DOT, KeyCode::KEY_DOT.0);
    assert_eq!(KEY_SLASH, KeyCode::KEY_SLASH.0);
    assert_eq!(KEY_SPACE, KeyCode::KEY_SPACE.0);
    assert_eq!(KEY_A, KeyCode::KEY_A.0);
    assert_eq!(KEY_ESC, KeyCode::KEY_ESC.0);
    assert_eq!(KEY_RIGHTALT, KeyCode::KEY_RIGHTALT.0);
    assert_eq!(KEY_0, KeyCode::KEY_0.0);
    assert_eq!(kmrebind::config::BTN_LEFT, KeyCode::BTN_LEFT.0);
}

#[test]
fn upper_name_lookup_is_exact() {
    assert_eq!(key_code_for_upper_name("DOT"), Some(52));
    assert_eq!(key_code_for_upper_name("dot"), None);
    assert_eq!(key_code_for_upper_name("KEY_DOT"), None);
    assert_eq!(key_code_for_upper_name(""), None);
    assert_eq!(key_code_for_upper_name("DOTS"), None);
    assert_eq!(key_code_for_upper_name("DO"), None);
    assert_eq!(key_code_for_upper_name("1"), Some(2));
    assert_eq!(key_code_for_upper_name("0"), Some(11));
}

#[test]
fn repeated_prefixes_are_all_stripped() {
    let codes = parse_key_names(&["KEY_KEY_DOT".to_string()]);
    assert_eq!(codes.len(), 1);
    assert!(codes.contains(&KeyCode::KEY_DOT.0));
}

#[test]
fn lower_case_prefix_is_not_stripped() {
    let codes = parse_key_names(&["key_dot".to_string()]);
    assert!(codes.is_empty());
}

#[test]
fn duplicate_names_give_one_code() {
    let names = vec!["DOT".to_string(), "KEY_DOT".to_string(), " dot ".to_string()];
    let codes = parse_key_names(&names);
    assert_eq!(codes.len(), 1);
    assert!(codes.contains(&KeyCode::KEY_DOT.0));
}

#[test]
fn default_key_names_are_dot_and_slash() {
    assert_eq!(default_key_names(), vec!["KEY_DOT".to_string(), "KEY_SLASH".to_string()]);
}

#[test]
fn name_order_does_not_matter() {
    let a = parse_key_names(&["SPACE".to_string(), "KEY_A".to_string(), "nope".to_string()]);
    let b = parse_key_names(&["nope".to_string(), "KEY_A".to_string(), "SPACE".to_string(), "SPACE".to_string()]);
    assert_eq!(a, b);
    assert_eq!(a.len(), 2);
}

#[test]
fn single_name_lookup() {
    assert_eq!(key_name_to_code("dot"), Some(KeyCode::KEY_DOT.0));
    assert_eq!(key_name_to_code("Dot"), Some(KeyCode::KEY_DOT.0));
    assert_eq!(key_name_to_code("KEY_DOT"), None);
    assert_eq!(key_code_of_name("\t KEY_Slash\n"), Some(KeyCode::KEY_SLASH.0));
    assert_eq!(key_code_of_name("KEY_KEY_esc"), Some(KeyCode::KEY_ESC.0));
    assert_eq!(key_code_of_name("\u{3000}space\u{a0}"), Some(KeyCode::KEY_SPACE.0));
    assert_eq!(key_code_of_name("KEY_"), None);
    assert_eq!(key_code_of_name("   "), None);
    assert_eq!(key_code_of_name("KEY _DOT"), None);
    assert_eq!(key_code_of_name("D OT"), None);
}

#[test]
fn white_space_around_names_is_ignored() {
    for padded in ["  tab ", "\ttab\t", "\n\r tab \u{2003}", "tab"] {
        assert_eq!(key_code_of_name(padded), Some(KeyCode::KEY_TAB.0), "{:?}", padded);
    }
}

/// The white space that trimming removes is exactly what `char::is_whitespace` accepts.
#[test]
fn white_space_set_agrees_with_std() {
    for x in 0u32..=0x10FFFF {
        if let Some(c) = char::from_u32(x) {
            assert_eq!(kmrebind::config::is_white_space(c), c.is_whitespace(), "{:#x}", x);
        }
    }
}

#[test]
fn ascii_names_are_upper_cased_letter_by_letter() {
    assert_eq!(key_name_to_code("lEfTsHiFt"), Some(KeyCode::KEY_LEFTSHIFT.0));
    assert_eq!(key_name_to_code("capslock"), Some(KeyCode::KEY_CAPSLOCK.0));
    assert_eq!(key_code_of_name("key_DOT"), None);
    assert_eq!(key_code_of_name("KEY_key_dot"), None);
}
