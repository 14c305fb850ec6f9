use mochi_browser::html_tokenizer::{HtmlToken, HtmlTokenizer, HtmlTokenizerIter, TokenizeError};

fn start_tag(name: &str, attributes: &[(&str, &str)], self_closing: bool) -> HtmlToken {
    HtmlToken::StartTag {
        name: name.to_string(),
        attributes: attributes
            .iter()
            .map(|(n, v)| (n.to_string(), v.to_string()))
            .collect(),
        self_closing,
    }
}

fn end_tag(name: &str) -> HtmlToken {
    HtmlToken::EndTag {
        name: name.to_string(),
    }
}

fn first(input: &str) -> Option<Result<HtmlToken, TokenizeError>> {
    HtmlTokenizer::new(input).next_token()
}

#[test]
fn test_parse_simple_start_tag() {
    let mut tokenizer = HtmlTokenizer::new("<div>");
    let token = tokenizer.next_token().unwrap().unwrap();

    match token {
        HtmlToken::StartTag {
            name,
            attributes,
            self_closing,
        } => {
            assert_eq!(name, "div");
            assert!(attributes.is_empty());
            assert_eq!(self_closing, false);
        }
        _ => panic!("Expected StartTag"),
    }
}

#[test]
fn test_parse_start_tag_with_attributes() {
    let mut tokenizer = HtmlTokenizer::new("<div class=\"foo\" id=\"bar\">");
    let token = tokenizer.next_token().unwrap().unwrap();

    match token {
        HtmlToken::StartTag {
            name,
            attributes,
            self_closing,
        } => {
            assert_eq!(name, "div");
            assert_eq!(attributes.len(), 2);
            assert_eq!(attributes[0], ("class".to_string(), "foo".to_string()));
            assert_eq!(attributes[1], ("id".to_string(), "bar".to_string()));
            assert_eq!(self_closing, false);
        }
        _ => panic!("Expected StartTag"),
    }
}

#[test]
fn test_parse_self_closing_tag() {
    let mut tokenizer = HtmlTokenizer::new("<br />");
    let token = tokenizer.next_token().unwrap().unwrap();

    match token {
        HtmlToken::StartTag {
            name,
            attributes,
            self_closing,
        } => {
            assert_eq!(name, "br");
            assert!(attributes.is_empty());
            assert_eq!(self_closing, true);
        }
        _ => panic!("Expected StartTag"),
    }
}

#[test]
fn test_parse_end_tag() {
    let mut tokenizer = HtmlTokenizer::new("</div>");
    let token = tokenizer.next_token().unwrap().unwrap();

    match token {
        HtmlToken::EndTag { name } => {
            assert_eq!(name, "div");
        }
        _ => panic!("Expected EndTag"),
    }
}

#[test]
fn test_parse_text() {
    let mut tokenizer = HtmlTokenizer::new("hello world");
    let token = tokenizer.next_token().unwrap().unwrap();

    match token {
        HtmlToken::Text(text) => {
            assert_eq!(text, "hello world");
        }
        _ => panic!("Expected Text"),
    }
}

#[test]
fn test_parse_comment() {
    let mut tokenizer = HtmlTokenizer::new("<!-- comment -->");
    let token = tokenizer.next_token().unwrap().unwrap();

    match token {
        HtmlToken::Comment(comment) => {
            assert_eq!(comment, " comment ");
        }
        _ => panic!("Expected Comment"),
    }
}

#[test]
fn test_parse_doctype() {
    let mut tokenizer = HtmlTokenizer::new("<!DOCTYPE html>");
    let token = tokenizer.next_token().unwrap().unwrap();

    match token {
        HtmlToken::Doctype(doctype) => {
            assert_eq!(doctype, "DOCTYPE html");
        }
        _ => panic!("Expected Doctype"),
    }
}

#[test]
fn test_parse_attribute_with_single_quotes() {
    let mut tokenizer = HtmlTokenizer::new("<a href='example.com'>");
    let token = tokenizer.next_token().unwrap().unwrap();

    match token {
        HtmlToken::StartTag { attributes, .. } => {
            assert_eq!(attributes.len(), 1);
            assert_eq!(
                attributes[0],
                ("href".to_string(), "example.com".to_string())
            );
        }
        _ => panic!("Expected StartTag"),
    }
}

#[test]
fn test_parse_attribute_without_quotes() {
    let mut tokenizer = HtmlTokenizer::new("<input type=text>");
    let token = tokenizer.next_token().unwrap().unwrap();

    match token {
        HtmlToken::StartTag { attributes, .. } => {
            assert_eq!(attributes.len(), 1);
            assert_eq!(attributes[0], ("type".to_string(), "text".to_string()));
        }
        _ => panic!("Expected StartTag"),
    }
}

#[test]
fn test_parse_empty_attribute() {
    let mut tokenizer = HtmlTokenizer::new("<button disabled>");
    let token = tokenizer.next_token().unwrap().unwrap();

    match token {
        HtmlToken::StartTag { attributes, .. } => {
            assert_eq!(attributes.len(), 1);
            assert_eq!(attributes[0].0, "disabled");
            assert_eq!(attributes[0].1, "");
        }
        _ => panic!("Expected StartTag"),
    }
}

#[test]
fn test_parse_nested_tags() {
    let input = "<div><span><a>link</a></span></div>";
    let tokenizer = HtmlTokenizer::new(input);
    let tokens: Vec<_> = tokenizer
        .iter()
        .to_vec()
        .into_iter()
        .map(|t| t.unwrap())
        .collect();

    assert_eq!(tokens.len(), 7);

    assert_eq!(
        tokens[0],
        HtmlToken::StartTag {
            name: "div".to_string(),
            attributes: vec![],
            self_closing: false,
        }
    );

    assert_eq!(
        tokens[1],
        HtmlToken::StartTag {
            name: "span".to_string(),
            attributes: vec![],
            self_closing: false,
        }
    );

    assert_eq!(
        tokens[2],
        HtmlToken::StartTag {
            name: "a".to_string(),
            attributes: vec![],
            self_closing: false,
        }
    );

    assert_eq!(tokens[3], HtmlToken::Text("link".to_string()));

    assert_eq!(
        tokens[4],
        HtmlToken::EndTag {
            name: "a".to_string()
        }
    );

    assert_eq!(
        tokens[5],
        HtmlToken::EndTag {
            name: "span".to_string()
        }
    );

    assert_eq!(
        tokens[6],
        HtmlToken::EndTag {
            name: "div".to_string()
        }
    );
}

#[test]
fn test_parse_mixed_attributes() {
    let mut tokenizer =
        HtmlTokenizer::new("<img src='test.jpg' alt=\"test\" width=100 height=\"200\"/>");
    let token = tokenizer.next_token().unwrap().unwrap();

    match token {
        HtmlToken::StartTag {
            name,
            attributes,
            self_closing,
        } => {
            assert_eq!(name, "img");
            assert_eq!(self_closing, true);
            assert_eq!(attributes.len(), 4);
            assert_eq!(attributes[0], ("src".to_string(), "test.jpg".to_string()));
            assert_eq!(attributes[1], ("alt".to_string(), "test".to_string()));
            assert_eq!(attributes[2], ("width".to_string(), "100".to_string()));
            assert_eq!(attributes[3], ("height".to_string(), "200".to_string()));
        }
        _ => panic!("Expected StartTag"),
    }
}

#[test]
fn test_empty_input() {
    let tokenizer = HtmlTokenizer::new("");
    let tokens: Vec<_> = tokenizer.iter().to_vec();
    assert!(tokens.is_empty());
}

#[test]
fn test_only_whitespace() {
    let tokenizer = HtmlTokenizer::new("   \t\n   ");
    let tokens: Vec<_> = tokenizer.iter().to_vec();
    assert!(tokens.is_empty());
}

#[test]
fn test_tokenize_error_invalid_tag() {
    let mut tokenizer = HtmlTokenizer::new("<>");
    match tokenizer.next_token() {
        Some(Err(TokenizeError::InvalidTag)) => {}
        _ => panic!("Expected InvalidTag error"),
    }
}

#[test]
fn test_tokenize_error_malformed_comment() {
    let mut tokenizer = HtmlTokenizer::new("<!- comment ->");
    match tokenizer.next_token() {
        Some(Err(TokenizeError::MalformedComment)) => {}
        _ => panic!("Expected MalformedComment error"),
    }
}

#[test]
fn unicode_whitespace_only_yields_nothing() {
    let tokens = HtmlTokenizerIter::new("\u{3000}\u{a0} \u{2028}\r\n").to_vec();
    assert!(tokens.is_empty());
}

#[test]
fn end_of_input_yields_none_repeatedly() {
    let mut tokenizer = HtmlTokenizer::new("<p>");
    assert_eq!(first("<p>"), Some(Ok(start_tag("p", &[], false))));
    assert!(tokenizer.next_token().is_some());
    assert_eq!(tokenizer.next_token(), None);
    assert_eq!(tokenizer.next_token(), None);
}

#[test]
fn sequence_runs_twice_alike() {
    let input = "<ul>\n  <li class=a>one</li>\n  <!-- note -->\n</ul>";
    let tokenizer = HtmlTokenizer::new(input);
    let once = tokenizer.iter().to_vec();
    let twice = tokenizer.iter().to_vec();
    assert_eq!(once, twice);
    assert_eq!(once.len(), 6);
    assert_eq!(once[1], Ok(start_tag("li", &[("class", "a")], false)));
    assert_eq!(once[2], Ok(HtmlToken::Text("one".to_string())));
    assert_eq!(once[4], Ok(HtmlToken::Comment(" note ".to_string())));
}

#[test]
fn iter_starts_from_the_beginning_after_pulls() {
    let mut tokenizer = HtmlTokenizer::new("<a>b</a>");
    assert_eq!(tokenizer.next_token(), Some(Ok(start_tag("a", &[], false))));
    assert_eq!(
        tokenizer.next_token(),
        Some(Ok(HtmlToken::Text("b".to_string())))
    );
    let all = tokenizer.iter().to_vec();
    assert_eq!(all.len(), 3);
    assert_eq!(all[0], Ok(start_tag("a", &[], false)));
    assert_eq!(tokenizer.next_token(), Some(Ok(end_tag("a"))));
    assert_eq!(tokenizer.next_token(), None);
}

#[test]
fn sequence_pulls_one_by_one() {
    let mut it = HtmlTokenizerIter::new("x<br/>");
    assert_eq!(it.next(), Some(Ok(HtmlToken::Text("x".to_string()))));
    assert_eq!(it.next(), Some(Ok(start_tag("br", &[], true))));
    assert_eq!(it.next(), None);
}

#[test]
fn unterminated_quoted_value_is_invalid_attribute() {
    assert_eq!(
        first("<a href=\"unterminated>"),
        Some(Err(TokenizeError::InvalidAttribute))
    );
    assert_eq!(first("<a href='x"), Some(Err(TokenizeError::InvalidAttribute)));
}

#[test]
fn unterminated_doctype_is_unexpected_eof() {
    assert_eq!(
        first("<!DOCTYPE html"),
        Some(Err(TokenizeError::UnexpectedEOF))
    );
}

#[test]
fn unterminated_comment_is_malformed() {
    assert_eq!(first("<!-- open"), Some(Err(TokenizeError::MalformedComment)));
    assert_eq!(first("<!-- a ->"), Some(Err(TokenizeError::MalformedComment)));
}

#[test]
fn comment_edge_cases() {
    assert_eq!(first("<!---->"), Some(Ok(HtmlToken::Comment(String::new()))));
    assert_eq!(
        first("<!-----> "),
        Some(Ok(HtmlToken::Comment("-".to_string())))
    );
    assert_eq!(
        first("<!-- a > b -- c -->"),
        Some(Ok(HtmlToken::Comment(" a > b -- c ".to_string())))
    );
    assert_eq!(
        first("<!---->x"),
        Some(Ok(HtmlToken::Comment(String::new())))
    );
}

#[test]
fn doctype_content_is_verbatim() {
    assert_eq!(
        first("<!anything at all>"),
        Some(Ok(HtmlToken::Doctype("anything at all".to_string())))
    );
    assert_eq!(first("<!>"), Some(Ok(HtmlToken::Doctype(String::new()))));
}

#[test]
fn end_tag_rejects_trailing_content() {
    assert_eq!(first("</div extra>"), Some(Err(TokenizeError::InvalidTag)));
    assert_eq!(first("</>"), Some(Err(TokenizeError::InvalidTag)));
    assert_eq!(first("</div  >"), Some(Ok(end_tag("div"))));
}

#[test]
fn malformed_start_tags_are_invalid() {
    assert_eq!(first("<div"), Some(Err(TokenizeError::InvalidTag)));
    assert_eq!(first("<br/ >"), Some(Err(TokenizeError::InvalidTag)));
    assert_eq!(first("<a/b>"), Some(Err(TokenizeError::InvalidTag)));
    assert_eq!(first("< div>"), Some(Err(TokenizeError::InvalidTag)));
}

#[test]
fn attributes_keep_duplicates_and_order() {
    assert_eq!(
        first("<p a=1 a=2 b>"),
        Some(Ok(start_tag("p", &[("a", "1"), ("a", "2"), ("b", "")], false)))
    );
}

#[test]
fn attribute_spacing_and_quotes() {
    assert_eq!(
        first("<a\thref = 'x \"y\" >z'\n>"),
        Some(Ok(start_tag("a", &[("href", "x \"y\" >z")], false)))
    );
    assert_eq!(
        first("<a x=b=c>"),
        Some(Ok(start_tag("a", &[("x", "b=c")], false)))
    );
    assert_eq!(
        first("<a x=>"),
        Some(Ok(start_tag("a", &[("x", "")], false)))
    );
}

#[test]
fn positions_count_characters() {
    let all = HtmlTokenizerIter::new("  héllo wörld <b>ünï</b>").to_vec();
    assert_eq!(all.len(), 4);
    assert_eq!(all[0], Ok(HtmlToken::Text("héllo wörld ".to_string())));
    assert_eq!(all[1], Ok(start_tag("b", &[], false)));
    assert_eq!(all[2], Ok(HtmlToken::Text("ünï".to_string())));
    assert_eq!(all[3], Ok(end_tag("b")));
}

#[test]
fn sequence_goes_on_after_an_error() {
    let all = HtmlTokenizerIter::new("<!-x>").to_vec();
    assert_eq!(all.len(), 2);
    assert_eq!(all[0], Err(TokenizeError::MalformedComment));
    assert_eq!(all[1], Ok(HtmlToken::Text("-x>".to_string())));
}

#[test]
fn error_messages() {
    assert_eq!(TokenizeError::UnexpectedEOF.message(), "Unexpected end of input");
    assert_eq!(TokenizeError::InvalidTag.message(), "Invalid HTML tag");
    assert_eq!(TokenizeError::InvalidAttribute.message(), "Invalid HTML attribute");
    assert_eq!(TokenizeError::MalformedComment.message(), "Malformed HTML comment");
}
