//! The flattener: reduces a token stream to ordered, kind-tagged
//! plain-text segments.
//!
//! Body text accumulates in a running buffer that breaks flush; a
//! boilerplate heading truncates the output on the spot; and a redirect
//! anywhere in the stream — the whole article is non-indexable — makes
//! the result empty.

use vstd::prelude::*;

use crate::scan::trim_seq;
use crate::scan::trim_of;
use crate::token::{
    lemma_tokens_model_is_deep_view, token_model, tokens_model, ListKind, SegmentKind,
    SegmentModel, TextSegment, Token, TokenModel,
};

verus! {

/// `c` with an ASCII capital letter folded to lower case.
pub open spec fn lower_char(c: char) -> char {
    if 'A' <= c && c <= 'Z' {
        (((c as u8) + 32) as char)
    } else {
        c
    }
}

/// Decides [`lower_char`].
pub fn to_lower(c: char) -> (r: char)
    ensures
        r == lower_char(c),
{
    if 'A' <= c && c <= 'Z' {
        ((c as u8) + 32) as char
    } else {
        c
    }
}

/// `s` with every ASCII capital letter folded to lower case.
pub open spec fn lower_seq(s: Seq<char>) -> Seq<char> {
    Seq::new(s.len(), |i: int| lower_char(s[i]))
}

/// Whether `a` and `b` agree up to ASCII case.
#[verifier::loop_isolation(false)]
pub fn eq_ignore_case(a: &str, b: &str) -> (r: bool)
    ensures
        r == (lower_seq(a@) == lower_seq(b@)),
{
    let a_len = a.unicode_len();
    let b_len = b.unicode_len();
    if a_len != b_len {
        assert(lower_seq(a@).len() != lower_seq(b@).len());
        return false;
    }
    let mut i: usize = 0;
    while i < a_len
        invariant
            0 <= i <= a_len,
            a_len == a@.len(),
            a_len == b@.len(),
            forall|j: int| 0 <= j < i ==> lower_char(a@[j]) == lower_char(b@[j]),
        decreases a_len - i,
    {
        if to_lower(a.get_char(i)) != to_lower(b.get_char(i)) {
            assert(lower_seq(a@)[i as int] != lower_seq(b@)[i as int]);
            return false;
        }
        i = i + 1;
    }
    assert(lower_seq(a@) =~= lower_seq(b@));
    true
}

/// Whether a heading's text names a boilerplate tail section whose
/// heading truncates extraction: the conventional German reference,
/// literature and external-link sections, compared case-insensitively
/// after trimming.
pub open spec fn is_stop_heading(text: Seq<char>) -> bool {
    let t = lower_seq(trim_seq(text));
    t == "einzelnachweise"@ || t == "literatur"@ || t == "weblinks"@
}

/// Decides [`is_stop_heading`].
pub fn stop_heading(text: &str) -> (r: bool)
    ensures
        r == is_stop_heading(text@),
{
    proof {
        reveal_strlit("einzelnachweise");
        reveal_strlit("literatur");
        reveal_strlit("weblinks");
        assert(lower_seq("einzelnachweise"@) =~= "einzelnachweise"@);
        assert(lower_seq("literatur"@) =~= "literatur"@);
        assert(lower_seq("weblinks"@) =~= "weblinks"@);
    }
    let t = trim_of(text);
    if eq_ignore_case(t.as_str(), "einzelnachweise") {
        return true;
    }
    if eq_ignore_case(t.as_str(), "literatur") {
        return true;
    }
    if eq_ignore_case(t.as_str(), "weblinks") {
        return true;
    }
    false
}

/// Whether this token is a redirect, looking through list children.
pub open spec fn tok_redirect(t: TokenModel) -> bool
    decreases t, 1int,
    via tok_redirect_decreases
{
    match t {
        TokenModel::Redirect => true,
        TokenModel::ListEntry { children, .. } => seq_redirect(children),
        _ => false,
    }
}

#[via_fn]
proof fn tok_redirect_decreases(t: TokenModel) {
    match t {
        TokenModel::ListEntry { kind, level, children } => {
            assert(decreases_to!(t => children));
        },
        _ => {},
    }
}

/// Whether any token of the stream, at any depth, is a redirect.
pub open spec fn seq_redirect(ts: Seq<TokenModel>) -> bool
    decreases ts, 0int,
{
    exists|i: int| 0 <= i < ts.len() && tok_redirect(ts[i])
}

/// Decides [`tok_redirect`] on a token's model.
pub fn token_has_redirect(t: &Token) -> (b: bool)
    ensures
        b == tok_redirect(t.deep_view()),
    decreases *t, 1int,
{
    match t {
        Token::Redirect => true,
        Token::ListEntry { children, .. } => {
            proof {
                assert(decreases_to!(*t => *children));
                assert(decreases_to!(*children => children@));
                lemma_tokens_model_is_deep_view(*children);
            }
            vec_has_redirect(children)
        },
        _ => false,
    }
}

/// Decides [`seq_redirect`] on a vector's deep view.
#[verifier::loop_isolation(false)]
pub fn vec_has_redirect(v: &Vec<Token>) -> (b: bool)
    ensures
        b == seq_redirect(v.deep_view()),
    decreases v@, 0int,
{
    let mut i: usize = 0;
    while i < v.len()
        invariant
            0 <= i <= v@.len(),
            forall|j: int| 0 <= j < i ==> !tok_redirect(v.deep_view()[j]),
        decreases v@.len() - i,
    {
        proof {
            assert(decreases_to!(v@ => v@[i as int]));
        }
        if token_has_redirect(&v[i]) {
            assert(tok_redirect(v.deep_view()[i as int]));
            return true;
        }
        i = i + 1;
    }
    assert(!seq_redirect(v.deep_view()));
    false
}

/// The buffered body text as a segment, or nothing if it is empty.
pub open spec fn flush(buf: Seq<char>) -> Seq<SegmentModel> {
    if buf.len() > 0 {
        seq![SegmentModel { kind: SegmentKind::Body, text: buf }]
    } else {
        Seq::empty()
    }
}

/// The flattener's walk from token `i` on, with `buf` holding the body
/// text accumulated so far: text-bearing tokens extend the buffer,
/// breaks flush it, a boilerplate heading stops the walk, list entries
/// recurse, a redirect empties the result, and everything structural is
/// dropped.
pub open spec fn spec_flat(toks: Seq<TokenModel>, i: int, buf: Seq<char>) -> Seq<SegmentModel>
    decreases toks, toks.len() - i,
    via spec_flat_decreases
{
    if i < 0 || i >= toks.len() {
        flush(buf)
    } else {
        match toks[i] {
            TokenModel::PlainText { text } => spec_flat(toks, i + 1, buf + text),
            TokenModel::Link { target } => spec_flat(toks, i + 1, buf + target),
            TokenModel::ParagraphBreak => flush(buf) + spec_flat(toks, i + 1, Seq::empty()),
            TokenModel::LineBreak => flush(buf) + spec_flat(toks, i + 1, Seq::empty()),
            TokenModel::Heading { level, text } => if is_stop_heading(text) {
                flush(buf)
            } else {
                flush(buf) + seq![SegmentModel { kind: SegmentKind::Heading, text }] + spec_flat(
                    toks,
                    i + 1,
                    Seq::empty(),
                )
            },
            TokenModel::ListEntry { kind, level, children } => flush(buf) + spec_flat(
                children,
                0,
                Seq::empty(),
            ) + spec_flat(toks, i + 1, Seq::empty()),
            TokenModel::Redirect => Seq::empty(),
            TokenModel::Template { .. } => spec_flat(toks, i + 1, buf),
            TokenModel::HtmlInlineElement { .. } => spec_flat(toks, i + 1, buf),
            TokenModel::HtmlEntity { .. } => spec_flat(toks, i + 1, buf),
            TokenModel::Comment => spec_flat(toks, i + 1, buf),
            TokenModel::Ignore => spec_flat(toks, i + 1, buf),
        }
    }
}

#[via_fn]
proof fn spec_flat_decreases(toks: Seq<TokenModel>, i: int, buf: Seq<char>) {
    if 0 <= i < toks.len() {
        match toks[i] {
            TokenModel::ListEntry { kind, level, children } => {
                assert(decreases_to!(toks => toks[i]));
                assert(decreases_to!(toks[i] => children));
            },
            _ => {},
        }
    }
}

/// The flattened form of a whole token stream: empty when a redirect
/// occurs anywhere in it, the walk's output otherwise.
pub open spec fn spec_flatten(toks: Seq<TokenModel>) -> Seq<SegmentModel> {
    if seq_redirect(toks) {
        Seq::empty()
    } else {
        spec_flat(toks, 0, Seq::empty())
    }
}

/// A token stream that contains a redirect anywhere, at any depth,
/// flattens to nothing: the whole article is non-indexable,
/// irrespective of the redirect's position or of segments accumulated
/// before it.
pub proof fn lemma_redirect_short_circuit(toks: Seq<TokenModel>)
    requires
        seq_redirect(toks),
    ensures
        spec_flatten(toks) == Seq::<SegmentModel>::empty(),
{
}

/// Appends the buffered body text, if any, to `out` as one segment and
/// hands back an empty buffer.
fn flush_buf(out: &mut Vec<TextSegment>, buf: String) -> (r: String)
    ensures
        final(out).deep_view() == old(out).deep_view() + flush(buf@),
        r@ == Seq::<char>::empty(),
{
    if !buf.as_str().is_empty() {
        let ghost before = out.deep_view();
        out.push(TextSegment { kind: SegmentKind::Body, text: buf });
        proof {
            assert(out.deep_view() =~= before + flush(buf@));
        }
        String::new()
    } else {
        proof {
            assert(out.deep_view() =~= out.deep_view() + flush(buf@));
        }
        buf
    }
}

/// Computes [`spec_flat`] for a redirect-free stream.
#[verifier::loop_isolation(false)]
fn flat_at(toks: &Vec<Token>, from: usize, buf: String) -> (r: Vec<TextSegment>)
    requires
        from <= toks@.len(),
        !seq_redirect(toks.deep_view()),
    ensures
        r.deep_view() == spec_flat(toks.deep_view(), from as int, buf@),
    decreases toks@, toks@.len() - from,
{
    let ghost dv = toks.deep_view();
    let ghost buf0 = buf@;
    proof {
        lemma_tokens_model_is_deep_view(*toks);
    }
    let mut out: Vec<TextSegment> = Vec::new();
    let mut buf = buf;
    let mut i = from;
    while i < toks.len()
        invariant
            from <= i <= toks@.len(),
            dv == toks.deep_view(),
            !seq_redirect(dv),
            spec_flat(dv, from as int, buf0) == out.deep_view() + spec_flat(dv, i as int, buf@),
        decreases toks@.len() - i,
    {
        let ghost buf_in = buf@;
        let ghost out_in = out.deep_view();
        proof {
            assert(dv[i as int] == toks@[i as int].deep_view());
        }
        match &toks[i] {
            Token::PlainText { text } => {
                buf.append(text.as_str());
            },
            Token::Link { target } => {
                buf.append(target.as_str());
            },
            Token::ParagraphBreak => {
                buf = flush_buf(&mut out, buf);
                proof {
                    assert(out.deep_view() + spec_flat(dv, i + 1, buf@) =~= out_in + (flush(
                        buf_in,
                    ) + spec_flat(dv, i + 1, buf@)));
                }
            },
            Token::LineBreak => {
                buf = flush_buf(&mut out, buf);
                proof {
                    assert(out.deep_view() + spec_flat(dv, i + 1, buf@) =~= out_in + (flush(
                        buf_in,
                    ) + spec_flat(dv, i + 1, buf@)));
                }
            },
            Token::Heading { level, text } => {
                buf = flush_buf(&mut out, buf);
                if stop_heading(text.as_str()) {
                    proof {
                        assert(out.deep_view() =~= out_in + flush(buf_in));
                    }
                    return out;
                }
                let ghost out_flushed = out.deep_view();
                out.push(TextSegment { kind: SegmentKind::Heading, text: text.clone() });
                proof {
                    assert(out.deep_view() =~= out_flushed + seq![
                        SegmentModel { kind: SegmentKind::Heading, text: text@ },
                    ]);
                    assert(out.deep_view() + spec_flat(dv, i + 1, buf@) =~= out_in + ((flush(
                        buf_in,
                    ) + seq![SegmentModel { kind: SegmentKind::Heading, text: text@ }]) + spec_flat(
                        dv,
                        i + 1,
                        buf@,
                    )));
                }
            },
            Token::ListEntry { kind, level, children } => {
                buf = flush_buf(&mut out, buf);
                proof {
                    lemma_tokens_model_is_deep_view(*children);
                    if seq_redirect(children.deep_view()) {
                        assert(tok_redirect(dv[i as int]));
                        assert(seq_redirect(dv));
                    }
                    let ti = toks@[i as int];
                    let vc = ti->children;
                    assert(decreases_to!(toks@ => toks@[i as int]));
                    assert(decreases_to!(ti => ti->children));
                    assert(decreases_to!(vc => vc@));
                }
                let mut sub = flat_at(children, 0, String::new());
                let ghost out_flushed = out.deep_view();
                let ghost sub_dv = sub.deep_view();
                out.append(&mut sub);
                proof {
                    assert(out.deep_view() =~= out_flushed + sub_dv);
                    assert(out.deep_view() + spec_flat(dv, i + 1, buf@) =~= out_in + ((flush(
                        buf_in,
                    ) + sub_dv) + spec_flat(dv, i + 1, buf@)));
                }
            },
            Token::Redirect => {
                proof {
                    assert(tok_redirect(dv[i as int]));
                    assert(seq_redirect(dv));
                    assert(false);
                }
            },
            Token::Template { .. } => {},
            Token::HtmlInlineElement { .. } => {},
            Token::HtmlEntity { .. } => {},
            Token::Comment => {},
            Token::Ignore => {},
        }
        i = i + 1;
    }
    let ghost out_before = out.deep_view();
    let ghost buf_end = buf@;
    let _ = flush_buf(&mut out, buf);
    proof {
        assert(out.deep_view() =~= out_before + flush(buf_end));
    }
    out
}

/// Flattens a token stream into ordered, kind-tagged text segments.
pub fn flatten(tokens: &Vec<Token>) -> (r: Vec<TextSegment>)
    ensures
        r.deep_view() == spec_flatten(tokens.deep_view()),
{
    if vec_has_redirect(tokens) {
        let r: Vec<TextSegment> = Vec::new();
        proof {
            assert(r.deep_view() =~= Seq::<SegmentModel>::empty());
        }
        r
    } else {
        flat_at(tokens, 0, String::new())
    }
}

} // verus!
