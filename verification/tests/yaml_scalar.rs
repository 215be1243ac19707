use morphir_core::ir::yaml::scalar::{
    has_leading_zero, is_core_float, is_int, is_non_finite, is_octal_or_hex, json_lexeme,
    resolve_plain, resolves_non_string, Resolved,
};

#[test]
fn the_three_boolean_and_null_spellings_resolve() {
    for text in ["true", "True", "TRUE"] {
        assert!(matches!(resolve_plain(text), Ok(Resolved::Bool(true))), "{text}");
    }
    for text in ["false", "False", "FALSE"] {
        assert!(matches!(resolve_plain(text), Ok(Resolved::Bool(false))), "{text}");
    }
    for text in ["null", "Null", "NULL", "~", ""] {
        assert!(matches!(resolve_plain(text), Ok(Resolved::Null)), "{text}");
    }
    assert!(matches!(resolve_plain("tRUE"), Ok(Resolved::Str(s)) if s == "tRUE"));
}

#[test]
fn integers_resolve_to_json_numbers_without_their_plus_sign() {
    match resolve_plain("42") {
        Ok(Resolved::Number(n)) => assert_eq!(n.to_string(), "42"),
        _ => panic!("expected a number"),
    }
    match resolve_plain("+7") {
        Ok(Resolved::Number(n)) => assert_eq!(n.to_string(), "7"),
        _ => panic!("expected a number"),
    }
    match resolve_plain("-3") {
        Ok(Resolved::Number(n)) => assert_eq!(n.parse::<i64>().ok(), Some(-3)),
        _ => panic!("expected a number"),
    }
}

#[test]
fn floats_resolve_through_their_json_lexeme() {
    match resolve_plain("1.5") {
        Ok(Resolved::Number(n)) => assert_eq!(n.parse::<f64>().ok(), Some(1.5)),
        _ => panic!("expected a number"),
    }
    match resolve_plain(".5") {
        Ok(Resolved::Number(n)) => assert_eq!(n.parse::<f64>().ok(), Some(0.5)),
        _ => panic!("expected a number"),
    }
    match resolve_plain("2.e3") {
        Ok(Resolved::Number(n)) => assert_eq!(n.parse::<f64>().ok(), Some(2000.0)),
        _ => panic!("expected a number"),
    }
}

#[test]
fn the_profile_refuses_spellings_it_does_not_carry() {
    assert!(matches!(resolve_plain(".inf"), Err("non-finite numbers are not part of the profile")));
    assert!(matches!(
        resolve_plain("0x1F"),
        Err("octal and hexadecimal spellings are not part of the profile; write decimal")
    ));
    assert!(matches!(resolve_plain("007"), Err("leading zeros are not part of the profile")));
    assert!(matches!(resolve_plain("-01.5"), Err("leading zeros are not part of the profile")));
}

#[test]
fn anything_else_is_a_string() {
    for text in ["hello", "1.2.3", "e5", "-", "abc1"] {
        match resolve_plain(text) {
            Ok(Resolved::Str(s)) => assert_eq!(s, text),
            _ => panic!("expected a string for {text}"),
        }
    }
}

#[test]
fn the_scalar_grammars() {
    assert!(is_int("-12") && is_int("+0") && !is_int("1.0") && !is_int("+"));
    assert!(is_core_float("1.") && is_core_float(".5e-3") && is_core_float("1e5"));
    assert!(!is_core_float("1") && !is_core_float(".") && !is_core_float("1e"));
    assert!(has_leading_zero("00") && has_leading_zero("-05") && !has_leading_zero("0"));
    assert!(is_non_finite("-.Inf") && is_non_finite(".NaN") && !is_non_finite("inf"));
    assert!(is_octal_or_hex("0o17") && is_octal_or_hex("-0X1") && !is_octal_or_hex("017"));
}

#[test]
fn json_lexemes_gain_the_digits_json_needs() {
    assert_eq!(json_lexeme(".5"), "0.5");
    assert_eq!(json_lexeme("1."), "1.0");
    assert_eq!(json_lexeme("+1.e2"), "1.0e2");
    assert_eq!(json_lexeme("-.5E3"), "-0.5E3");
    assert_eq!(json_lexeme("2.25"), "2.25");
}

#[test]
fn a_string_that_would_read_back_as_something_else_is_flagged() {
    for text in ["true", "NULL", "~", "", "12", "1.5", ".inf", "0x1"] {
        assert!(resolves_non_string(text), "{text}");
    }
    for text in ["yes", "hello", "1.2.3"] {
        assert!(!resolves_non_string(text), "{text}");
    }
}
