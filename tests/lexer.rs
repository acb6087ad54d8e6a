use qsearch::lexer::Lexer;
use qsearch::pipeline::{query_terms, upper_token};

fn chars(s: &str) -> Vec<char> {
    s.chars().collect()
}

#[test]
fn tokenizer_scenario() {
    assert_eq!(query_terms("abc123 def!"), vec!["ABC123", "DEF", "!"]);
}

#[test]
fn lexer_next_token_sequence() {
    let text = chars("  abc123 def!");
    let mut lexer = Lexer::new(&text);
    assert_eq!(lexer.next_token(), Some(&chars("abc123")[..]));
    assert_eq!(lexer.next_token(), Some(&chars("def")[..]));
    assert_eq!(lexer.next_token(), Some(&chars("!")[..]));
    assert_eq!(lexer.next_token(), None);
    assert_eq!(lexer.next_token(), None);
}

#[test]
fn lexer_only_whitespace() {
    let text = chars(" \t\n ");
    let mut lexer = Lexer::from_vec(&text);
    assert!(lexer.tokens().is_empty());
}

#[test]
fn lexer_empty() {
    let text: Vec<char> = vec![];
    let mut lexer = Lexer::new(&text);
    assert_eq!(lexer.next_token(), None);
}

#[test]
fn lexer_symbols_are_single() {
    let text = chars("a,,b");
    let mut lexer = Lexer::new(&text);
    let toks: Vec<String> = lexer.tokens().iter().map(|t| t.iter().collect()).collect();
    assert_eq!(toks, vec!["a", ",", ",", "b"]);
}

#[test]
fn lexer_trim_and_eat() {
    let text = chars("   xyz");
    let mut lexer = Lexer::new(&text);
    lexer.trim_left();
    assert_eq!(lexer.eat(2), &chars("xy")[..]);
    assert_eq!(lexer.eat(1), &chars("z")[..]);
}

#[test]
fn lexer_next_pred() {
    let text = chars("aab");
    let mut lexer = Lexer::new(&text);
    assert_eq!(lexer.next_pred(|c| *c == 'a'), &chars("aa")[..]);
    assert_eq!(lexer.next_pred(|c| *c == 'a'), &chars("")[..]);
}

#[test]
fn upper_case_ascii_only() {
    assert_eq!(upper_token(&chars("aZ9é")), "AZ9é");
}
