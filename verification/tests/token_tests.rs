use sql_prepare::token::{tokenize, Token};

fn concat(tokens: &[Token]) -> String {
    let mut s = String::new();
    for t in tokens {
        s.push_str(t.text());
    }
    s
}

#[test]
fn tokenize_round_trips_mixed_input() {
    let input = "WHERE A = '?' AND B = ?";
    let tokens = tokenize(input);
    assert_eq!(concat(&tokens), input);
}

#[test]
fn tokenize_empty_input_yields_no_tokens() {
    assert_eq!(tokenize(""), vec![]);
}

#[test]
fn tokenize_classifies_words_spaces_and_punctuation() {
    let tokens = tokenize("A = ?");
    assert_eq!(
        tokens,
        vec![
            Token::Unquoted("A".to_owned()),
            Token::Space(" ".to_owned()),
            Token::Punctuation("=".to_owned()),
            Token::Space(" ".to_owned()),
            Token::Punctuation("?".to_owned()),
        ]
    );
}

#[test]
fn tokenize_keeps_quoted_literal_together() {
    let tokens = tokenize("'a b ? c'");
    assert_eq!(tokens, vec![Token::Quoted("'a b ? c'".to_owned())]);
}

#[test]
fn tokenize_handles_backslash_escaped_quote() {
    let tokens = tokenize("'a\\'b' c");
    assert_eq!(
        tokens,
        vec![
            Token::Quoted("'a\\'b'".to_owned()),
            Token::Space(" ".to_owned()),
            Token::Unquoted("c".to_owned()),
        ]
    );
}

#[test]
fn tokenize_handles_doubled_quote() {
    let tokens = tokenize("'a''b'");
    assert_eq!(tokens, vec![Token::Quoted("'a''b'".to_owned())]);
}

#[test]
fn tokenize_unterminated_quote_extends_to_end() {
    let input = "abc 'def";
    let tokens = tokenize(input);
    assert_eq!(
        tokens,
        vec![
            Token::Unquoted("abc".to_owned()),
            Token::Space(" ".to_owned()),
            Token::Quoted("'def".to_owned()),
        ]
    );
    assert_eq!(concat(&tokens), input);
}

#[test]
fn tokenize_groups_punctuation_runs() {
    let tokens = tokenize("a>=?b");
    assert_eq!(
        tokens,
        vec![
            Token::Unquoted("a".to_owned()),
            Token::Punctuation(">=?".to_owned()),
            Token::Unquoted("b".to_owned()),
        ]
    );
}
