use tokenizer::model::ScanError;
use tokenizer::scanner::Tokenizer;
use tokenizer::scanner::tokenize_all;

fn toks(code: &str) -> Vec<String> {
    tokenize_all(code).expect("scan should succeed")
}

fn owned(parts: &[&str]) -> Vec<String> {
    parts.iter().map(|p| p.to_string()).collect()
}

#[test]
fn plus_between_identifiers() {
    assert_eq!(toks("a+b"), owned(&["a", "+", "b"]));
}

#[test]
fn increment_after_identifier() {
    assert_eq!(toks("a++"), owned(&["a", "++"]));
}

#[test]
fn relational_with_number() {
    assert_eq!(toks("x >= 10"), owned(&["x", ">=", "10"]));
}

#[test]
fn char_literal() {
    assert_eq!(toks("'a'"), owned(&["'a'"]));
}

#[test]
fn string_literal() {
    assert_eq!(toks("\"hi\""), owned(&["\"hi\""]));
}

#[test]
fn call_with_arguments() {
    assert_eq!(toks("foo(1,2)"), owned(&["foo", "(", "1", ",", "2", ")"]));
}

#[test]
fn malformed_char_literal_fails() {
    assert_eq!(tokenize_all("'ab'"), Err(ScanError::MalformedCharLiteral));
    let mut t = Tokenizer::new("'ab'");
    assert_eq!(t.next(), Err(ScanError::MalformedCharLiteral));
}

#[test]
fn unterminated_string_literal_fails() {
    assert_eq!(tokenize_all("\"abc"), Err(ScanError::UnterminatedStringLiteral));
}

#[test]
fn unterminated_char_literal_fails() {
    assert_eq!(tokenize_all("'"), Err(ScanError::UnterminatedCharLiteral));
    assert_eq!(tokenize_all("'a"), Err(ScanError::UnterminatedCharLiteral));
}

#[test]
fn empty_char_literal_is_accepted() {
    assert_eq!(toks("''"), owned(&["''"]));
}

#[test]
fn empty_input_has_no_tokens() {
    assert_eq!(toks(""), owned(&[]));
    let mut t = Tokenizer::new("");
    assert_eq!(t.next(), Ok(None));
}

#[test]
fn whitespace_only_has_no_tokens() {
    assert_eq!(toks("  \t\n  "), owned(&[]));
}

#[test]
fn end_is_stable() {
    let mut t = Tokenizer::new("a");
    assert_eq!(t.next(), Ok(Some("a".to_string())));
    assert_eq!(t.next(), Ok(None));
    assert_eq!(t.next(), Ok(None));
}

#[test]
fn pull_based_scanning_yields_tokens_one_by_one() {
    let code = "x >= 10;".to_string();
    let mut t = Tokenizer::new(&code);
    assert_eq!(t.next(), Ok(Some("x".to_string())));
    assert_eq!(t.next(), Ok(Some(">=".to_string())));
    assert_eq!(t.next(), Ok(Some("10".to_string())));
    assert_eq!(t.next(), Ok(Some(";".to_string())));
    assert_eq!(t.next(), Ok(None));
}

#[test]
fn two_character_operators_take_maximal_munch() {
    assert_eq!(toks("a<=b"), owned(&["a", "<=", "b"]));
    assert_eq!(toks("a==b"), owned(&["a", "==", "b"]));
    assert_eq!(toks("a!=b"), owned(&["a", "!=", "b"]));
    assert_eq!(toks("i++;"), owned(&["i", "++", ";"]));
    assert_eq!(toks("i--;"), owned(&["i", "--", ";"]));
}

#[test]
fn bare_operators_when_completion_is_absent() {
    assert_eq!(toks("a < b"), owned(&["a", "<", "b"]));
    assert_eq!(toks("a = b"), owned(&["a", "=", "b"]));
    assert_eq!(toks("!a"), owned(&["!", "a"]));
    assert_eq!(toks("a + - b"), owned(&["a", "+", "-", "b"]));
}

#[test]
fn fixed_punctuation() {
    assert_eq!(toks("{ } ( ) ; , * /"), owned(&["{", "}", "(", ")", ";", ",", "*", "/"]));
}

#[test]
fn digit_and_identifier_runs_are_maximal() {
    assert_eq!(toks("1234 56"), owned(&["1234", "56"]));
    assert_eq!(toks("ab12 x"), owned(&["ab12", "x"]));
}

#[test]
fn string_literal_keeps_inner_whitespace() {
    assert_eq!(toks("\"a b\""), owned(&["\"a b\""]));
}

#[test]
fn unrecognized_characters_are_skipped() {
    assert_eq!(toks("a % b"), owned(&["a", "b"]));
    assert_eq!(toks("_x"), owned(&["x"]));
    assert_eq!(toks("a\u{a7}b"), owned(&["a", "b"]));
}

#[test]
fn unicode_whitespace_separates_tokens() {
    assert_eq!(toks("a\u{a0}b"), owned(&["a", "b"]));
    assert_eq!(toks("a\u{2028}b"), owned(&["a", "b"]));
}

#[test]
fn no_token_is_empty_or_padded() {
    let ts = toks(" foo ( \"a b\" , 12 ) ;\n");
    for t in &ts {
        assert!(!t.is_empty());
        assert!(!t.starts_with(char::is_whitespace));
        assert!(!t.ends_with(char::is_whitespace));
    }
}

#[test]
fn rejoining_tokens_with_spaces_is_a_fixed_point() {
    let first = toks("a + b");
    assert_eq!(first, owned(&["a", "+", "b"]));
    let rejoined = first.join(" ");
    assert_eq!(toks(&rejoined), first);
}

#[test]
fn rejoining_is_a_fixed_point_for_mixed_input() {
    let first = toks("foo(1,2)<= \"a b\" ''!x--");
    let rejoined = first.join(" ");
    assert_eq!(toks(&rejoined), first);
}
