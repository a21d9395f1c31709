//! A MediaWiki wikitext tokenizer and plain-text flattener.
//!
//! The tokenizer turns raw wikitext into an ordered stream of structural
//! tokens (headings, links, templates, list entries, ...), resolving the
//! markup's local ambiguity by trying a fixed, priority-ordered set of
//! recognizer rules.  A plain-text fallback rule guarantees that scanning
//! always makes progress, so malformed input degrades to plain text and
//! the tokenizer terminates on every finite input.
//!
//! The flattener reduces a token stream to ordered, kind-tagged text
//! segments fit for search indexing: redirect articles flatten to nothing,
//! and conventional boilerplate tail sections (references, literature,
//! external links) truncate the output.

pub mod flatten;
pub mod rules;
pub mod scan;
pub mod token;
pub mod tokenizer;

use vstd::prelude::*;

use crate::flatten::{flatten, spec_flat, spec_flatten, seq_redirect};
use crate::token::{SegmentModel, TextSegment, Token, TokenModel};
use crate::tokenizer::{spec_tokenize, tokenize_at};

verus! {

/// A character the plain-text rule stops at: each one can open a
/// structural construct, so a text run never swallows it.
pub open spec fn spec_special_sign(c: char) -> bool {
    c == '{' || c == '[' || c == '\'' || c == '\n' || c == '&'
}

/// Decides whether `c` can start a structural construct; the plain-text
/// fallback consumes a run of characters free of these.
pub fn special_sign(c: char) -> (r: bool)
    ensures
        r == spec_special_sign(c),
{
    match c {
        '{' => true,
        '[' => true,
        '\'' => true,
        '\n' => true,
        '&' => true,
        _ => false,
    }
}

/// The single entry point for a host: turns wikitext into the ordered
/// text segments a search index consumes.  Any text that decoded
/// cleanly is processed; malformed markup degrades to plain text
/// instead of failing.
pub fn parse_wiki(text: &str) -> (r: Result<Vec<TextSegment>, String>)
    ensures
        match r {
            Ok(segs) => segs.deep_view() == spec_flatten(spec_tokenize(text@, true)),
            Err(_) => false,
        },
{
    let toks = tokenize_at(text, true);
    Ok(flatten(&toks))
}

/// Tokenizes the built-in nested-template sample; the command-line
/// harness prints what this returns.
pub fn main2() -> (r: Vec<Token>)
    ensures
        r.deep_view() == spec_tokenize("Some template {{ that {{ is }} nested }}"@, true),
{
    tokenize_at("Some template {{ that {{ is }} nested }}", true)
}

/// Empty input flattens to no segments at all.
pub proof fn lemma_empty_input()
    ensures
        spec_flatten(spec_tokenize(Seq::<char>::empty(), true)) == Seq::<SegmentModel>::empty(),
{
    assert(spec_tokenize(Seq::<char>::empty(), true) == Seq::<TokenModel>::empty());
    assert(!seq_redirect(Seq::<TokenModel>::empty()));
    assert(spec_flat(Seq::<TokenModel>::empty(), 0, Seq::<char>::empty())
        == Seq::<SegmentModel>::empty());
}

} // verus!
