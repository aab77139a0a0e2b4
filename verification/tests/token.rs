use saba_core::renderer::html::attribute::Attribute;
use saba_core::renderer::html::token::{HtmlToken, HtmlTokenizer};

fn start(tag: &str) -> HtmlToken {
    HtmlToken::StartTag { tag: tag.to_string(), self_closing: false, attributes: Vec::new() }
}

fn end(tag: &str) -> HtmlToken {
    HtmlToken::EndTag { tag: tag.to_string() }
}

/// Every token that polling gives, up to the first `None`.
fn tokens(html: &str) -> Vec<HtmlToken> {
    let mut tokenizer = HtmlTokenizer::new(html.to_string());
    let mut found = Vec::new();
    while let Some(token) = tokenizer.next() {
        found.push(token);
        assert!(found.len() <= html.chars().count() + 1);
    }
    assert_eq!(tokenizer.next(), None);
    found
}

#[test]
fn start_tag_text_end_tag() {
    let mut tokenizer = HtmlTokenizer::new("<p>ab</p>".to_string());
    assert_eq!(
        tokenizer.next(),
        Some(HtmlToken::StartTag { tag: "p".to_string(), self_closing: false, attributes: vec![] })
    );
    assert_eq!(tokenizer.next(), Some(HtmlToken::Char('a')));
    assert_eq!(tokenizer.next(), Some(HtmlToken::Char('b')));
    assert_eq!(tokenizer.next(), Some(HtmlToken::EndTag { tag: "p".to_string() }));
    assert_eq!(tokenizer.next(), Some(HtmlToken::Eof));
    assert_eq!(tokenizer.next(), None);
    assert_eq!(tokenizer.next(), None);
}

#[test]
fn letters_give_one_char_each_then_eof() {
    let text = "abcXYZ";
    let mut expected: Vec<HtmlToken> = text.chars().map(HtmlToken::Char).collect();
    expected.push(HtmlToken::Eof);
    assert_eq!(tokens(text), expected);
}

#[test]
fn text_without_tags_gives_one_char_for_each_code_point() {
    let text = "a é 日本 >/x\n";
    let mut expected: Vec<HtmlToken> = text.chars().map(HtmlToken::Char).collect();
    expected.push(HtmlToken::Eof);
    assert_eq!(tokens(text), expected);
}

#[test]
fn empty_input_gives_eof_once() {
    let mut tokenizer = HtmlTokenizer::new(String::new());
    assert_eq!(tokenizer.next(), Some(HtmlToken::Eof));
    assert_eq!(tokenizer.next(), None);
    assert_eq!(tokenizer.next(), None);
}

#[test]
fn tag_names_are_lowered() {
    assert_eq!(tokens("<BoDy></BODY>"), vec![start("body"), end("body"), HtmlToken::Eof]);
    assert_eq!(tokens("<h1>"), vec![start("h1"), HtmlToken::Eof]);
    assert_eq!(tokens("<aÉ-Z_>"), vec![start("aÉ-z_"), HtmlToken::Eof]);
}

#[test]
fn nested_tags() {
    assert_eq!(
        tokens("<html><b>x</b></html>"),
        vec![start("html"), start("b"), HtmlToken::Char('x'), end("b"), end("html"), HtmlToken::Eof]
    );
}

#[test]
fn end_of_input_after_less_than_sign() {
    assert_eq!(tokens("a<"), vec![HtmlToken::Char('a'), HtmlToken::Eof]);
    assert_eq!(tokens("</"), vec![HtmlToken::Eof]);
}

#[test]
fn end_of_input_in_a_tag_name_drops_the_tag() {
    assert_eq!(tokens("<p"), vec![HtmlToken::Eof]);
    assert_eq!(tokens("x</di"), vec![HtmlToken::Char('x'), HtmlToken::Eof]);
}

#[test]
fn stray_less_than_sign_is_dropped() {
    assert_eq!(tokens("<1"), vec![HtmlToken::Char('1'), HtmlToken::Eof]);
    assert_eq!(tokens("a < b"), vec![HtmlToken::Char('a'), HtmlToken::Char(' '), HtmlToken::Char(' '), HtmlToken::Char('b'), HtmlToken::Eof]);
    assert_eq!(tokens("<<p>"), vec![start("p"), HtmlToken::Eof]);
    assert_eq!(tokens("<>"), vec![HtmlToken::Char('>'), HtmlToken::Eof]);
}

#[test]
fn end_tag_open_passes_over_what_is_no_letter() {
    assert_eq!(tokens("</>"), vec![HtmlToken::Eof]);
    assert_eq!(tokens("</ 1p>x"), vec![end("p"), HtmlToken::Char('x'), HtmlToken::Eof]);
}

#[test]
fn states_without_transitions_end_the_tokens() {
    assert_eq!(tokens("<p class=x>text"), vec![]);
    assert_eq!(tokens("a<br/>b"), vec![HtmlToken::Char('a')]);
    assert_eq!(tokens("<p>x</p ><b>"), vec![start("p"), HtmlToken::Char('x')]);
}

#[test]
fn tokens_carry_their_attributes() {
    let attribute = Attribute::new("class".to_string(), "x".to_string());
    assert_eq!(attribute.name(), "class");
    assert_eq!(attribute.value(), "x");
    let token = HtmlToken::StartTag { tag: "p".to_string(), self_closing: true, attributes: vec![attribute.clone()] };
    assert_eq!(token.clone(), token);
    assert_ne!(token, start("p"));
    assert_eq!(end("p").clone(), end("p"));
    assert_eq!(HtmlToken::Char('x').clone(), HtmlToken::Char('x'));
    assert_eq!(HtmlToken::Eof.clone(), HtmlToken::Eof);
}

#[test]
fn clone_goes_on_where_the_tokenizer_stands() {
    let mut tokenizer = HtmlTokenizer::new("<a>x".to_string());
    assert_eq!(tokenizer.next(), Some(start("a")));
    let mut copy = tokenizer.clone();
    assert_eq!(copy, tokenizer);
    assert_eq!(copy.next(), Some(HtmlToken::Char('x')));
    assert_eq!(tokenizer.next(), Some(HtmlToken::Char('x')));
    assert_eq!(copy.next(), Some(HtmlToken::Eof));
    assert_eq!(copy.next(), None);
    assert_eq!(tokenizer.next(), Some(HtmlToken::Eof));
}

#[test]
fn scratch_buffer_stays_empty() {
    let mut tokenizer = HtmlTokenizer::new("<a>".to_string());
    assert_eq!(
        format!("{:?}", tokenizer),
        "HtmlTokenizer { state: Data, pos: 0, reconsume: false, latest_token: None, \
         input: ['<', 'a', '>'], buf: \"\", past_end: false }"
    );
    assert_eq!(tokenizer.next(), Some(start("a")));
    assert_eq!(tokenizer.next(), Some(HtmlToken::Eof));
    assert_eq!(
        format!("{:?}", tokenizer),
        "HtmlTokenizer { state: Data, pos: 3, reconsume: false, latest_token: None, \
         input: ['<', 'a', '>'], buf: \"\", past_end: true }"
    );
}
