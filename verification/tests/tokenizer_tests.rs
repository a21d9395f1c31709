use wiki_parser::token::{ListKind, Token};
use wiki_parser::tokenizer::tokenize;
use wiki_parser::{main2, special_sign};

fn text(s: &str) -> Token {
    Token::PlainText { text: s.to_string() }
}

#[test]
fn empty_input_yields_no_tokens() {
    assert_eq!(tokenize("").unwrap(), Vec::<Token>::new());
}

#[test]
fn nested_template_is_one_token() {
    let toks = tokenize("{{ that {{ is }} nested }}").unwrap();
    assert_eq!(toks, vec![Token::Template { name: "that".to_string() }]);
}

#[test]
fn main2_tokenizes_the_sample() {
    let toks = main2();
    assert_eq!(
        toks,
        vec![text("Some template "), Token::Template { name: "that".to_string() }]
    );
}

#[test]
fn template_name_stops_at_bar() {
    let toks = tokenize("{{name|arg|arg2}}").unwrap();
    assert_eq!(toks, vec![Token::Template { name: "name".to_string() }]);
}

#[test]
fn template_name_is_trimmed() {
    let toks = tokenize("{{  spaced name  }}").unwrap();
    assert_eq!(toks, vec![Token::Template { name: "spaced name".to_string() }]);
}

#[test]
fn unterminated_template_degrades_to_text() {
    let toks = tokenize("{{abc").unwrap();
    assert_eq!(toks, vec![text("{"), text("{"), text("abc")]);
}

#[test]
fn list_structure_two_levels() {
    let toks = tokenize("Some text\n* Entry 1\n** Entry 2\n").unwrap();
    assert_eq!(toks.len(), 4);
    assert_eq!(toks[0], text("Some text"));
    assert_eq!(
        toks[1],
        Token::ListEntry {
            kind: ListKind::Unordered,
            level: 1,
            children: vec![text("Entry 1")],
        }
    );
    assert_eq!(
        toks[2],
        Token::ListEntry {
            kind: ListKind::Unordered,
            level: 2,
            children: vec![text("Entry 2")],
        }
    );
    assert_eq!(toks[3], Token::LineBreak);
}

#[test]
fn ordered_list_uses_hash_markers() {
    let toks = tokenize("x\n# a\n## b\n").unwrap();
    assert_eq!(
        toks[1],
        Token::ListEntry { kind: ListKind::Ordered, level: 1, children: vec![text("a")] }
    );
    assert_eq!(
        toks[2],
        Token::ListEntry { kind: ListKind::Ordered, level: 2, children: vec![text("b")] }
    );
}

#[test]
fn list_children_parse_nested_markup() {
    let toks = tokenize("x\n* see [[Target|name]] now\n").unwrap();
    assert_eq!(
        toks[1],
        Token::ListEntry {
            kind: ListKind::Unordered,
            level: 1,
            children: vec![
                text("see "),
                Token::Link { target: "name".to_string() },
                text(" now"),
            ],
        }
    );
}

#[test]
fn html_tag_with_matching_close_is_recognized() {
    let toks = tokenize("&lt;ref&gt;hello&lt;/ref&gt;").unwrap();
    assert_eq!(
        toks,
        vec![Token::HtmlInlineElement {
            tag_name: "ref".to_string(),
            inner_text: "hello".to_string(),
        }]
    );
}

#[test]
fn html_tag_with_mismatched_close_is_not_recognized() {
    let toks = tokenize("&lt;ref&gt;hello&lt;/other&gt;").unwrap();
    for t in &toks {
        assert!(!matches!(t, Token::HtmlInlineElement { .. }));
    }
}

#[test]
fn html_tag_name_is_first_word_of_open_tag() {
    let toks = tokenize("&lt;ref name=a&gt;x&lt;/ref&gt;").unwrap();
    assert_eq!(
        toks,
        vec![Token::HtmlInlineElement {
            tag_name: "ref".to_string(),
            inner_text: "x".to_string(),
        }]
    );
}

#[test]
fn unicode_text_is_never_split() {
    let input = "ca\u{0066}\u{0301}e\u{0301} in 日本語 and кириллица";
    let toks = tokenize(input).unwrap();
    assert_eq!(toks, vec![text(input)]);
}

#[test]
fn unicode_text_between_constructs_stays_whole() {
    let toks = tokenize("ä\u{0308}[[x]]ö").unwrap();
    assert_eq!(
        toks,
        vec![
            text("ä\u{0308}"),
            Token::Link { target: "x".to_string() },
            text("ö"),
        ]
    );
}

#[test]
fn heading_with_matching_runs() {
    let toks = tokenize("\n== Title ==\nrest").unwrap();
    assert_eq!(
        toks,
        vec![
            Token::Heading { level: 2, text: "Title".to_string() },
            Token::LineBreak,
            text("rest"),
        ]
    );
}

#[test]
fn heading_with_short_close_declines() {
    let toks = tokenize("\n== Title =").unwrap();
    assert_eq!(toks, vec![Token::LineBreak, text("== Title =")]);
}

#[test]
fn heading_with_longer_close_declines() {
    let toks = tokenize("\n=T===").unwrap();
    assert_eq!(toks, vec![Token::LineBreak, text("=T===")]);
}

#[test]
fn heading_must_follow_a_line_break() {
    let toks = tokenize("== Title ==").unwrap();
    assert_eq!(toks, vec![text("== Title ==")]);
}

#[test]
fn double_bracket_link_takes_text_after_last_bar() {
    assert_eq!(
        tokenize("[[A|B]]").unwrap(),
        vec![Token::Link { target: "B".to_string() }]
    );
    assert_eq!(
        tokenize("[[A]]").unwrap(),
        vec![Token::Link { target: "A".to_string() }]
    );
    assert_eq!(
        tokenize("[[a|b|c]]").unwrap(),
        vec![Token::Link { target: "c".to_string() }]
    );
}

#[test]
fn single_bracket_link_takes_whole_content() {
    assert_eq!(
        tokenize("[https://example.org page]").unwrap(),
        vec![Token::Link { target: "https://example.org page".to_string() }]
    );
}

#[test]
fn unterminated_link_degrades_to_text() {
    let toks = tokenize("[[unclosed").unwrap();
    assert_eq!(toks, vec![text("["), text("["), text("unclosed")]);
}

#[test]
fn redirect_at_input_start() {
    let toks = tokenize("#REDIRECT [[Target]]").unwrap();
    assert_eq!(
        toks,
        vec![Token::Redirect, text(" "), Token::Link { target: "Target".to_string() }]
    );
}

#[test]
fn redirect_after_line_break() {
    let toks = tokenize("a\n#REDIRECT x").unwrap();
    assert_eq!(toks[0], text("a"));
    assert_eq!(toks[1], Token::Redirect);
}

#[test]
fn redirect_does_not_match_mid_line() {
    let toks = tokenize("a #REDIRECT x").unwrap();
    assert_eq!(toks, vec![text("a #REDIRECT x")]);
}

#[test]
fn comment_is_swallowed_whole() {
    let toks = tokenize("a&lt;!-- hidden --&gt;b").unwrap();
    assert_eq!(toks, vec![text("a"), Token::Comment, text("b")]);
}

#[test]
fn non_breaking_space_entity_becomes_space() {
    let toks = tokenize("a&amp;nbsp;b").unwrap();
    assert_eq!(
        toks,
        vec![text("a"), Token::HtmlEntity { name: " ".to_string() }, text("b")]
    );
}

#[test]
fn named_entity_is_recognized() {
    let toks = tokenize("&auml;").unwrap();
    assert_eq!(toks, vec![Token::HtmlEntity { name: "auml".to_string() }]);
}

#[test]
fn bold_delimiters_are_ignored_tokens() {
    let toks = tokenize("'''bold'''").unwrap();
    assert_eq!(toks, vec![Token::Ignore, text("bold"), Token::Ignore]);
}

#[test]
fn bold_italic_takes_five_quotes() {
    let toks = tokenize("'''''x''").unwrap();
    assert_eq!(toks, vec![Token::Ignore, text("x"), Token::Ignore]);
}

#[test]
fn two_line_breaks_make_a_paragraph() {
    assert_eq!(
        tokenize("a\n\nb").unwrap(),
        vec![text("a"), Token::ParagraphBreak, text("b")]
    );
    assert_eq!(
        tokenize("a\nb").unwrap(),
        vec![text("a"), Token::LineBreak, text("b")]
    );
}

#[test]
fn horizontal_rule_folds_to_paragraph_break() {
    let toks = tokenize("a\n----\nb").unwrap();
    assert_eq!(
        toks,
        vec![text("a"), Token::ParagraphBreak, Token::LineBreak, text("b")]
    );
}

#[test]
fn line_start_rules_fire_after_a_horizontal_rule() {
    let toks = tokenize("a\n----\n#REDIRECT x").unwrap();
    assert_eq!(
        toks,
        vec![text("a"), Token::ParagraphBreak, Token::Redirect, text(" x")]
    );
}

#[test]
fn short_dash_run_is_not_a_rule() {
    let toks = tokenize("a\n---\n").unwrap();
    assert_eq!(toks, vec![text("a"), Token::LineBreak, text("---"), Token::LineBreak]);
}

#[test]
fn definition_markers_fold_to_line_breaks() {
    assert_eq!(tokenize("a\n:x").unwrap(), vec![text("a"), Token::LineBreak, text("x")]);
    assert_eq!(tokenize("a\n;;x").unwrap(), vec![text("a"), Token::LineBreak, text("x")]);
}

#[test]
fn special_sign_matches_structural_characters() {
    for c in ['{', '[', '\'', '\n', '&'] {
        assert!(special_sign(c));
    }
    for c in ['a', ' ', '}', ']', '#', '=', '*', 'ä'] {
        assert!(!special_sign(c));
    }
}

#[test]
fn token_names_follow_the_kind() {
    assert_eq!(text("x").get_name(), "PlainText");
    assert_eq!(Token::Redirect.get_name(), "Redirect");
    assert_eq!(
        Token::ListEntry { kind: ListKind::Unordered, level: 1, children: vec![] }.get_name(),
        "UnorderedListEntry"
    );
    assert_eq!(
        Token::ListEntry { kind: ListKind::Ordered, level: 1, children: vec![] }.get_name(),
        "OrderedListEntry"
    );
}

#[test]
fn empty_list_entry_has_no_children() {
    let toks = tokenize("x\n*\n** y\n").unwrap();
    assert_eq!(
        toks[1],
        Token::ListEntry { kind: ListKind::Unordered, level: 1, children: vec![] }
    );
    assert_eq!(
        toks[2],
        Token::ListEntry { kind: ListKind::Unordered, level: 2, children: vec![text("y")] }
    );
}

#[test]
fn empty_template_has_empty_name() {
    let toks = tokenize("{{}}").unwrap();
    assert_eq!(toks, vec![Token::Template { name: String::new() }]);
}

#[test]
fn template_name_keeps_a_lone_brace() {
    let toks = tokenize("{{a{b}}").unwrap();
    assert_eq!(toks, vec![Token::Template { name: "a{b".to_string() }]);
}

#[test]
fn template_name_stops_at_nested_opening() {
    let toks = tokenize("{{outer{{inner}}rest}}").unwrap();
    assert_eq!(toks, vec![Token::Template { name: "outer".to_string() }]);
}

#[test]
fn crlf_pair_is_a_line_ending() {
    let toks = tokenize("a\r\n\r\nb").unwrap();
    assert_eq!(toks, vec![text("a\r"), Token::ParagraphBreak, text("b")]);
}

#[test]
fn crlf_single_line_break() {
    let toks = tokenize("{{x}}\r\nb").unwrap();
    assert_eq!(
        toks,
        vec![Token::Template { name: "x".to_string() }, Token::LineBreak, text("b")]
    );
}

#[test]
fn crlf_heading_is_recognized() {
    let toks = tokenize("\r\n== T ==\r\n").unwrap();
    assert_eq!(
        toks,
        vec![Token::Heading { level: 2, text: "T".to_string() }, Token::LineBreak]
    );
}

#[test]
fn crlf_horizontal_rule_is_recognized() {
    let toks = tokenize("a\n----\r\nb").unwrap();
    assert_eq!(
        toks,
        vec![text("a"), Token::ParagraphBreak, Token::LineBreak, text("b")]
    );
}

#[test]
fn crlf_list_entry_is_recognized() {
    let toks = tokenize("{{x}}\r\n* a\r\n").unwrap();
    assert_eq!(
        toks,
        vec![
            Token::Template { name: "x".to_string() },
            Token::ListEntry { kind: ListKind::Unordered, level: 1, children: vec![text("a")] },
            Token::LineBreak,
        ]
    );
}

#[test]
fn crlf_redirect_is_recognized() {
    let toks = tokenize("{{x}}\r\n#REDIRECT").unwrap();
    assert_eq!(
        toks,
        vec![Token::Template { name: "x".to_string() }, Token::Redirect]
    );
}

#[test]
fn link_must_close_before_the_line_ends() {
    let toks = tokenize("[[a\nb]]").unwrap();
    assert_eq!(
        toks,
        vec![text("["), text("["), text("a"), Token::LineBreak, text("b]]")]
    );
}

#[test]
fn single_link_must_close_before_the_line_ends() {
    let toks = tokenize("[a\nb]").unwrap();
    assert_eq!(
        toks,
        vec![text("["), text("a"), Token::LineBreak, text("b]")]
    );
}
