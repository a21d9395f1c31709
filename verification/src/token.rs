//! The token stream's data model: the tokenizer's output tokens and the
//! flattener's output segments, together with their mathematical models.

use vstd::prelude::*;

verus! {

/// Whether a list entry came from `#` (ordered) or `*` (unordered) markers.
#[derive(Clone, Copy, Debug, PartialEq, Eq, Structural)]
pub enum ListKind {
    Ordered,
    Unordered,
}

/// One recognized piece of wikitext.
///
/// `ListEntry` owns the tokens of its own line, so a token stream is a
/// tree; every other variant is a leaf.
#[derive(Debug, PartialEq, Eq)]
pub enum Token {
    /// A run of characters with no structural meaning.
    PlainText { text: String },
    /// Two or more consecutive line breaks, or a horizontal rule.
    ParagraphBreak,
    /// A single line break, or a definition-list marker line.
    LineBreak,
    /// `== text ==`; `level` counts the `=` signs on each side.
    Heading { level: usize, text: String },
    /// `[[target]]`, `[[page|target]]` or `[target]`.
    Link { target: String },
    /// `{{name|...}}`; only the name is retained, never the expansion.
    Template { name: String },
    /// A `*`/`#`-prefixed line; `level` counts the markers and
    /// `children` holds the re-tokenized remainder of the line.
    ListEntry { kind: ListKind, level: usize, children: Vec<Token> },
    /// `&lt;name&gt;inner&lt;/name&gt;` with exactly matching tag names.
    HtmlInlineElement { tag_name: String, inner_text: String },
    /// `&name;`; the non-breaking-space entity is folded to a space.
    HtmlEntity { name: String },
    /// `&lt;!-- ... --&gt;`; the payload is discarded.
    Comment,
    /// A `#REDIRECT` marker at the start of a line.
    Redirect,
    /// A bold or italic delimiter, dropped from text output.
    Ignore,
}

/// The mathematical model of a [`Token`]: text as `Seq<char>`, child
/// streams as `Seq<TokenModel>`.
pub enum TokenModel {
    PlainText { text: Seq<char> },
    ParagraphBreak,
    LineBreak,
    Heading { level: nat, text: Seq<char> },
    Link { target: Seq<char> },
    Template { name: Seq<char> },
    ListEntry { kind: ListKind, level: nat, children: Seq<TokenModel> },
    HtmlInlineElement { tag_name: Seq<char>, inner_text: Seq<char> },
    HtmlEntity { name: Seq<char> },
    Comment,
    Redirect,
    Ignore,
}

/// Maps a sequence of tokens to the sequence of their models.
pub open spec fn tokens_model(ts: Seq<Token>) -> Seq<TokenModel>
    decreases ts, 0int,
{
    Seq::new(
        ts.len(),
        |i: int|
            if 0 <= i < ts.len() {
                token_model(ts[i])
            } else {
                TokenModel::Ignore
            },
    )
}

/// Maps a token to its model, recursing into list children.
pub open spec fn token_model(t: Token) -> TokenModel
    decreases t, 1int,
    via token_model_decreases
{
    match t {
        Token::PlainText { text } => TokenModel::PlainText { text: text@ },
        Token::ParagraphBreak => TokenModel::ParagraphBreak,
        Token::LineBreak => TokenModel::LineBreak,
        Token::Heading { level, text } => TokenModel::Heading {
            level: level as nat,
            text: text@,
        },
        Token::Link { target } => TokenModel::Link { target: target@ },
        Token::Template { name } => TokenModel::Template { name: name@ },
        Token::ListEntry { kind, level, children } => TokenModel::ListEntry {
            kind,
            level: level as nat,
            children: tokens_model(children@),
        },
        Token::HtmlInlineElement { tag_name, inner_text } => TokenModel::HtmlInlineElement {
            tag_name: tag_name@,
            inner_text: inner_text@,
        },
        Token::HtmlEntity { name } => TokenModel::HtmlEntity { name: name@ },
        Token::Comment => TokenModel::Comment,
        Token::Redirect => TokenModel::Redirect,
        Token::Ignore => TokenModel::Ignore,
    }
}

#[via_fn]
proof fn token_model_decreases(t: Token) {
    match t {
        Token::ListEntry { kind, level, children } => {
            assert(decreases_to!(t => children));
            assert(decreases_to!(children => children@));
        },
        _ => {},
    }
}

/// The model of a vector of tokens is its deep view.
pub proof fn lemma_tokens_model_is_deep_view(v: Vec<Token>)
    ensures
        tokens_model(v@) == v.deep_view(),
{
    assert(tokens_model(v@) =~= v.deep_view());
}

impl View for Token {
    type V = TokenModel;

    open spec fn view(&self) -> TokenModel {
        token_model(*self)
    }
}

impl DeepView for Token {
    type V = TokenModel;

    open spec fn deep_view(&self) -> TokenModel {
        token_model(*self)
    }
}

impl Token {
    /// The kind of this token as a label, one per variant.
    pub fn get_name(&self) -> (r: &'static str)
        ensures
            r@ == spec_token_name(self@),
    {
        match self {
            Token::PlainText { .. } => "PlainText",
            Token::ParagraphBreak => "ParagraphBreak",
            Token::LineBreak => "LineBreak",
            Token::Heading { .. } => "Heading",
            Token::Link { .. } => "Link",
            Token::Template { .. } => "Template",
            Token::ListEntry { kind: ListKind::Unordered, .. } => "UnorderedListEntry",
            Token::ListEntry { kind: ListKind::Ordered, .. } => "OrderedListEntry",
            Token::HtmlInlineElement { .. } => "HtmlInlineElement",
            Token::HtmlEntity { .. } => "HtmlEntity",
            Token::Comment => "Comment",
            Token::Redirect => "Redirect",
            Token::Ignore => "Ignore",
        }
    }
}

/// The label that [`Token::get_name`] returns for each token kind.
pub open spec fn spec_token_name(t: TokenModel) -> Seq<char> {
    match t {
        TokenModel::PlainText { .. } => "PlainText"@,
        TokenModel::ParagraphBreak => "ParagraphBreak"@,
        TokenModel::LineBreak => "LineBreak"@,
        TokenModel::Heading { .. } => "Heading"@,
        TokenModel::Link { .. } => "Link"@,
        TokenModel::Template { .. } => "Template"@,
        TokenModel::ListEntry { kind: ListKind::Unordered, .. } => "UnorderedListEntry"@,
        TokenModel::ListEntry { kind: ListKind::Ordered, .. } => "OrderedListEntry"@,
        TokenModel::HtmlInlineElement { .. } => "HtmlInlineElement"@,
        TokenModel::HtmlEntity { .. } => "HtmlEntity"@,
        TokenModel::Comment => "Comment"@,
        TokenModel::Redirect => "Redirect"@,
        TokenModel::Ignore => "Ignore"@,
    }
}

/// Whether a flattened segment is running body text or a section heading.
#[derive(Clone, Copy, Debug, PartialEq, Eq, Structural)]
pub enum SegmentKind {
    Body,
    Heading,
}

/// One ordered, kind-tagged piece of the flattener's plain-text output.
#[derive(Debug, PartialEq, Eq)]
pub struct TextSegment {
    pub kind: SegmentKind,
    pub text: String,
}

/// The mathematical model of a [`TextSegment`].
pub struct SegmentModel {
    pub kind: SegmentKind,
    pub text: Seq<char>,
}

impl View for TextSegment {
    type V = SegmentModel;

    open spec fn view(&self) -> SegmentModel {
        SegmentModel { kind: self.kind, text: self.text@ }
    }
}

impl DeepView for TextSegment {
    type V = SegmentModel;

    open spec fn deep_view(&self) -> SegmentModel {
        self.view()
    }
}

} // verus!
