use wiki_parser::flatten::flatten;
use wiki_parser::parse_wiki;
use wiki_parser::token::{ListKind, SegmentKind, TextSegment, Token};
use wiki_parser::tokenizer::tokenize;

fn text(s: &str) -> Token {
    Token::PlainText { text: s.to_string() }
}

fn body(s: &str) -> TextSegment {
    TextSegment { kind: SegmentKind::Body, text: s.to_string() }
}

fn heading_seg(s: &str) -> TextSegment {
    TextSegment { kind: SegmentKind::Heading, text: s.to_string() }
}

fn heading_tok(level: usize, s: &str) -> Token {
    Token::Heading { level, text: s.to_string() }
}

#[test]
fn empty_input_flattens_to_nothing() {
    let toks = tokenize("").unwrap();
    assert_eq!(flatten(&toks), Vec::<TextSegment>::new());
    assert_eq!(parse_wiki("").unwrap(), Vec::<TextSegment>::new());
}

#[test]
fn boilerplate_heading_truncates_output() {
    let toks = vec![text("intro"), heading_tok(1, "Einzelnachweise"), text("footnote")];
    assert_eq!(flatten(&toks), vec![body("intro")]);
}

#[test]
fn stop_list_is_case_insensitive() {
    let toks = vec![text("a"), heading_tok(2, "LITERATUR"), text("b")];
    assert_eq!(flatten(&toks), vec![body("a")]);
    let toks = vec![text("a"), heading_tok(2, " Weblinks "), text("b")];
    assert_eq!(flatten(&toks), vec![body("a")]);
}

#[test]
fn ordinary_heading_becomes_a_segment() {
    let toks = vec![heading_tok(1, "Intro"), text("x")];
    assert_eq!(flatten(&toks), vec![heading_seg("Intro"), body("x")]);
}

#[test]
fn redirect_anywhere_flattens_to_nothing() {
    assert_eq!(flatten(&vec![Token::Redirect]), Vec::<TextSegment>::new());
    assert_eq!(
        flatten(&vec![text("x"), Token::Redirect]),
        Vec::<TextSegment>::new()
    );
    assert_eq!(
        flatten(&vec![text("x"), heading_tok(1, "Literatur"), Token::Redirect]),
        Vec::<TextSegment>::new()
    );
}

#[test]
fn redirect_nested_in_a_list_flattens_to_nothing() {
    let toks = vec![
        text("x"),
        Token::ListEntry {
            kind: ListKind::Unordered,
            level: 1,
            children: vec![Token::Redirect],
        },
    ];
    assert_eq!(flatten(&toks), Vec::<TextSegment>::new());
}

#[test]
fn breaks_flush_the_buffer() {
    let toks = vec![text("a"), text("b"), Token::LineBreak, text("c"), Token::ParagraphBreak];
    assert_eq!(flatten(&toks), vec![body("ab"), body("c")]);
}

#[test]
fn consecutive_breaks_emit_nothing_extra() {
    let toks = vec![Token::LineBreak, Token::ParagraphBreak, text("a")];
    assert_eq!(flatten(&toks), vec![body("a")]);
}

#[test]
fn structural_tokens_contribute_no_text() {
    let toks = vec![
        text("a"),
        Token::Template { name: "t".to_string() },
        Token::Comment,
        Token::HtmlEntity { name: "auml".to_string() },
        Token::HtmlInlineElement { tag_name: "ref".to_string(), inner_text: "note".to_string() },
        Token::Ignore,
        text("b"),
    ];
    assert_eq!(flatten(&toks), vec![body("ab")]);
}

#[test]
fn link_targets_contribute_text() {
    let toks = vec![text("see "), Token::Link { target: "here".to_string() }];
    assert_eq!(flatten(&toks), vec![body("see here")]);
}

#[test]
fn list_entries_flatten_their_children() {
    let toks = vec![
        text("before"),
        Token::ListEntry {
            kind: ListKind::Unordered,
            level: 1,
            children: vec![text("item one")],
        },
        Token::ListEntry {
            kind: ListKind::Ordered,
            level: 2,
            children: vec![text("item two")],
        },
    ];
    assert_eq!(flatten(&toks), vec![body("before"), body("item one"), body("item two")]);
}

#[test]
fn article_flows_end_to_end() {
    let article = "Der '''Artikel''' handelt von [[Thema|etwas]].\n\n\
== Geschichte ==\nEin Satz.\n* Punkt eins\n* Punkt zwei\n\n\
== Einzelnachweise ==\n&lt;ref&gt;Quelle&lt;/ref&gt;\n";
    let segs = parse_wiki(article).unwrap();
    assert_eq!(
        segs,
        vec![
            body("Der Artikel handelt von etwas."),
            heading_seg("Geschichte"),
            body("Ein Satz."),
            body("Punkt eins"),
            body("Punkt zwei"),
        ]
    );
}

#[test]
fn redirect_article_is_not_indexable() {
    let segs = parse_wiki("#REDIRECT [[Hauptartikel]]").unwrap();
    assert_eq!(segs, Vec::<TextSegment>::new());
}

#[test]
fn trailing_buffer_is_flushed() {
    let toks = vec![text("tail")];
    assert_eq!(flatten(&toks), vec![body("tail")]);
}
