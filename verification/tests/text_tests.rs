use castxml_ast::schema::{Access, Bool, Id, IdRef};
use castxml_ast::text::{
    parse_access, parse_flag, parse_id, parse_idref, parse_idrefs, parse_integer, parse_number,
};

#[test]
fn identifier_is_sigil_and_numeral() {
    assert_eq!(parse_id("_12"), Some(Id(12)));
    assert_eq!(parse_id("_0"), Some(Id(0)));
    assert_eq!(parse_id("_007"), Some(Id(7)));
    assert_eq!(parse_idref("_18446744073709551615"), Some(IdRef(u64::MAX)));
}

#[test]
fn malformed_identifiers_are_refused() {
    assert_eq!(parse_id(""), None);
    assert_eq!(parse_id("_"), None);
    assert_eq!(parse_id("12"), None);
    assert_eq!(parse_id("f1"), None);
    assert_eq!(parse_id("_1c"), None);
    assert_eq!(parse_id("_+1"), None);
    assert_eq!(parse_id("_ 1"), None);
    assert_eq!(parse_id("_18446744073709551616"), None);
    assert_eq!(parse_idref("_99999999999999999999999"), None);
}

#[test]
fn reference_list_keeps_order() {
    assert_eq!(parse_idrefs("_3 _1 _2"), Some(vec![IdRef(3), IdRef(1), IdRef(2)]));
    assert_eq!(parse_idrefs("  _7\t_8\n"), Some(vec![IdRef(7), IdRef(8)]));
    assert_eq!(parse_idrefs(""), Some(vec![]));
    assert_eq!(parse_idrefs("   "), Some(vec![]));
    assert_eq!(parse_idrefs("_5"), Some(vec![IdRef(5)]));
}

#[test]
fn reference_list_with_a_bad_token_is_refused() {
    assert_eq!(parse_idrefs("_1 x _2"), None);
    assert_eq!(parse_idrefs("_1 _"), None);
    assert_eq!(parse_idrefs("_1,_2"), None);
    assert_eq!(parse_idrefs("1"), None);
}

#[test]
fn numbers_fit_in_64_bits() {
    assert_eq!(parse_number("0"), Some(0));
    assert_eq!(parse_number("64"), Some(64));
    assert_eq!(parse_number("18446744073709551615"), Some(u64::MAX));
    assert_eq!(parse_number("18446744073709551616"), None);
    assert_eq!(parse_number(""), None);
    assert_eq!(parse_number("-1"), None);
    assert_eq!(parse_number("1 "), None);
}

#[test]
fn integers_carry_a_sign() {
    assert_eq!(parse_integer("0"), Some(0));
    assert_eq!(parse_integer("-1"), Some(-1));
    assert_eq!(parse_integer("9223372036854775807"), Some(i64::MAX));
    assert_eq!(parse_integer("9223372036854775808"), None);
    assert_eq!(parse_integer("-9223372036854775808"), Some(i64::MIN));
    assert_eq!(parse_integer("-9223372036854775809"), None);
    assert_eq!(parse_integer("-"), None);
    assert_eq!(parse_integer("+1"), None);
}

#[test]
fn flag_is_presence_encoded() {
    assert_eq!(parse_flag(None), Some(Bool(false)));
    assert_eq!(parse_flag(Some("1")), Some(Bool(true)));
    assert_eq!(parse_flag(Some("010")), Some(Bool(true)));
    assert_eq!(parse_flag(Some("0")), None);
    assert_eq!(parse_flag(Some("")), None);
    assert_eq!(parse_flag(Some("true")), None);
    assert_eq!(parse_flag(Some("99999999999999999999999999")), Some(Bool(true)));
}

#[test]
fn access_words() {
    assert_eq!(parse_access("public"), Some(Access::Public));
    assert_eq!(parse_access("protected"), Some(Access::Protected));
    assert_eq!(parse_access("private"), Some(Access::Private));
    assert_eq!(parse_access("Public"), None);
    assert_eq!(parse_access(""), None);
}

#[test]
fn tokens_are_runs_between_whitespace() {
    let parts: Vec<String> =
        castxml_ast::text::split_tokens("  ab\tc \r\n d\u{c}").into_iter().map(|t| t.into_iter().collect()).collect();
    assert_eq!(parts, vec!["ab", "c", "d"]);
    assert!(castxml_ast::text::split_tokens(" \n").is_empty());
}
