//! The tokenizer driver and the recursive list-entry rules.
//!
//! The driver applies the priority-ordered recognizer until the input is
//! exhausted; the plain-text fallback guarantees progress, so every
//! finite input yields a token stream whose consumed spans exactly
//! partition the input.

use vstd::prelude::*;

use crate::rules::{
    consumed_ok, spec_comment, spec_defn, spec_entity, spec_header, spec_hline, spec_html,
    spec_link, spec_newline, spec_paragraph, spec_quotes, spec_redirect, spec_single_link,
    spec_template, spec_text, tok_rel,
};
use crate::rules::{
    take_text, try_comment, try_defn, try_entity, try_header, try_hline, try_html, try_link,
    try_newline, try_paragraph, try_quotes, try_redirect, try_single_link, try_template,
};
use crate::scan::{
    char_run_end, char_till, lemma_char_run_end, lemma_char_till, lemma_line_break_from,
    lemma_line_run, lemma_name_delim_from, lemma_trim_seq_index, lemma_trim_seq_len,
    lemma_trim_seq_trimmed, line_break_from, line_ending_len, line_run_end, name_delim_from,
    name_stop_at, non_ws_from, trim_seq,
};
use crate::scan::{line_run, run_end, scan_line_ending, till_line_break, trim_of};
use crate::token::{
    lemma_tokens_model_is_deep_view, token_model, tokens_model, ListKind, Token, TokenModel,
};

verus! {

/// List-entry rule: after the line break run, a run of `marker`
/// characters gives the level; the rest of the line, trimmed, is
/// re-tokenized into the entry's children.  The line break that ends
/// the line is not consumed.
pub open spec fn spec_list(s: Seq<char>, kind: ListKind, marker: char) -> Option<
    (TokenModel, int),
>
    decreases s.len(), 0int,
    via spec_list_decreases
{
    if line_ending_len(s, 0) > 0 {
        let r = line_run_end(s, 0);
        let m_end = char_run_end(s, r, marker);
        if m_end > r {
            let content_end = line_break_from(s, m_end);
            let children = spec_tokenize(trim_seq(s.subrange(m_end, content_end)), false);
            Some(
                (
                    TokenModel::ListEntry { kind, level: (m_end - r) as nat, children },
                    content_end,
                ),
            )
        } else {
            None
        }
    } else {
        None
    }
}

#[via_fn]
proof fn spec_list_decreases(s: Seq<char>, kind: ListKind, marker: char) {
    if line_ending_len(s, 0) > 0 {
        lemma_line_run(s, 0);
        let r = line_run_end(s, 0);
        lemma_char_run_end(s, r, marker);
        let m_end = char_run_end(s, r, marker);
        if m_end > r {
            assert(r >= 1);
            lemma_line_break_from(s, m_end);
            let content_end = line_break_from(s, m_end);
            lemma_trim_seq_len(s.subrange(m_end, content_end));
        }
    }
}

/// The first matching rule of the fixed priority order, or the
/// plain-text fallback, which matches whenever the input is non-empty.
pub open spec fn spec_next_token(s: Seq<char>, at_start: bool) -> Option<(TokenModel, int)>
    decreases s.len(), 1int,
{
    if spec_comment(s) is Some {
        spec_comment(s)
    } else if spec_redirect(s, at_start) is Some {
        spec_redirect(s, at_start)
    } else if spec_quotes(s) is Some {
        spec_quotes(s)
    } else if spec_template(s) is Some {
        spec_template(s)
    } else if spec_link(s) is Some {
        spec_link(s)
    } else if spec_single_link(s) is Some {
        spec_single_link(s)
    } else if spec_header(s) is Some {
        spec_header(s)
    } else if spec_hline(s) is Some {
        spec_hline(s)
    } else if spec_list(s, ListKind::Unordered, '*') is Some {
        spec_list(s, ListKind::Unordered, '*')
    } else if spec_list(s, ListKind::Ordered, '#') is Some {
        spec_list(s, ListKind::Ordered, '#')
    } else if spec_defn(s, ':') is Some {
        spec_defn(s, ':')
    } else if spec_defn(s, ';') is Some {
        spec_defn(s, ';')
    } else if spec_html(s) is Some {
        spec_html(s)
    } else if spec_entity(s) is Some {
        spec_entity(s)
    } else if spec_paragraph(s) is Some {
        spec_paragraph(s)
    } else if spec_newline(s) is Some {
        spec_newline(s)
    } else {
        spec_text(s)
    }
}

/// The whole token stream of `s`: one recognized token after another
/// until the input is exhausted.  A consumed length outside `1..=len`
/// is clamped so that the stream is well-defined on every input; the
/// recognizer is separately proved never to need the clamp.
pub open spec fn spec_tokenize(s: Seq<char>, at_start: bool) -> Seq<TokenModel>
    decreases s.len(), 2int,
{
    if s.len() == 0 {
        Seq::empty()
    } else {
        match spec_next_token(s, at_start) {
            Some(p) => {
                let n = if 1 <= p.1 <= s.len() {
                    p.1
                } else {
                    1
                };
                seq![p.0] + spec_tokenize(s.skip(n), false)
            },
            None => Seq::empty(),
        }
    }
}

/// The consumed span lengths that accompany [`spec_tokenize`], in the
/// same order.
pub open spec fn spec_token_lens(s: Seq<char>, at_start: bool) -> Seq<int>
    decreases s.len(),
{
    if s.len() == 0 {
        Seq::empty()
    } else {
        match spec_next_token(s, at_start) {
            Some(p) => {
                let n = if 1 <= p.1 <= s.len() {
                    p.1
                } else {
                    1
                };
                seq![n] + spec_token_lens(s.skip(n), false)
            },
            None => Seq::empty(),
        }
    }
}

/// Decides [`spec_list`] for the given marker.
#[verifier::loop_isolation(false)]
pub fn try_list(s: &str, kind: ListKind, marker: char) -> (r: Option<(Token, usize)>)
    ensures
        tok_rel(r, spec_list(s@, kind, marker)),
        consumed_ok(r, s@),
    decreases s@.len(), 0int,
{
    if scan_line_ending(s, 0) == 0 {
        return None;
    }
    {
        let nl_run = line_run(s, 0).0;
        let m_end = run_end(s, nl_run, marker);
        if m_end > nl_run {
            let content_end = till_line_break(s, m_end);
            let content = trim_of(s.substring_char(m_end, content_end));
            proof {
                assert(nl_run >= 1);
                assert(content@.len() < s@.len());
            }
            let children = tokenize_at(content.as_str(), false);
            proof {
                lemma_tokens_model_is_deep_view(children);
            }
            let level = m_end - nl_run;
            Some((Token::ListEntry { kind, level, children }, content_end))
        } else {
            None
        }
    }
}

/// Decides [`spec_next_token`]; total on non-empty input.
pub fn next_token(s: &str, at_start: bool) -> (r: (Token, usize))
    requires
        s@.len() >= 1,
    ensures
        spec_next_token(s@, at_start) == Some((token_model(r.0), r.1 as int)),
        1 <= r.1 <= s@.len(),
    decreases s@.len(), 1int,
{
    if let Some(p) = try_comment(s) {
        return p;
    }
    if let Some(p) = try_redirect(s, at_start) {
        return p;
    }
    if let Some(p) = try_quotes(s) {
        return p;
    }
    if let Some(p) = try_template(s) {
        return p;
    }
    if let Some(p) = try_link(s) {
        return p;
    }
    if let Some(p) = try_single_link(s) {
        return p;
    }
    if let Some(p) = try_header(s) {
        return p;
    }
    if let Some(p) = try_hline(s) {
        return p;
    }
    if let Some(p) = try_list(s, ListKind::Unordered, '*') {
        return p;
    }
    if let Some(p) = try_list(s, ListKind::Ordered, '#') {
        return p;
    }
    if let Some(p) = try_defn(s, ':') {
        return p;
    }
    if let Some(p) = try_defn(s, ';') {
        return p;
    }
    if let Some(p) = try_html(s) {
        return p;
    }
    if let Some(p) = try_entity(s) {
        return p;
    }
    if let Some(p) = try_paragraph(s) {
        return p;
    }
    if let Some(p) = try_newline(s) {
        return p;
    }
    take_text(s)
}

/// Tokenizes all of `s`, with `at_start` saying whether `s` begins the
/// article (only there may a redirect match without a preceding line
/// break).
#[verifier::loop_isolation(false)]
pub fn tokenize_at(s: &str, at_start: bool) -> (r: Vec<Token>)
    ensures
        r.deep_view() == spec_tokenize(s@, at_start),
    decreases s@.len(), 2int,
{
    let s_len = s.unicode_len();
    let mut toks: Vec<Token> = Vec::new();
    let mut pos: usize = 0;
    proof {
        assert(s@.skip(0) =~= s@);
    }
    while pos < s_len
        invariant
            0 <= pos <= s_len,
            s_len == s@.len(),
            spec_tokenize(s@, at_start) == toks.deep_view() + spec_tokenize(
                s@.skip(pos as int),
                at_start && pos == 0,
            ),
        decreases s_len - pos,
    {
        let rest = s.substring_char(pos, s_len);
        let at = at_start && pos == 0;
        let (tok, n) = next_token(rest, at);
        proof {
            assert(rest@ =~= s@.skip(pos as int));
            assert(rest@.skip(n as int) =~= s@.skip(pos + n as int));
            let ghost old_dv = toks.deep_view();
            let ghost tail = spec_tokenize(s@.skip(pos + n as int), false);
            assert(spec_tokenize(s@.skip(pos as int), at) == seq![token_model(tok)] + tail);
            assert(old_dv + (seq![token_model(tok)] + tail) =~= (old_dv + seq![
                token_model(tok),
            ]) + tail);
        }
        let ghost old_toks = toks;
        toks.push(tok);
        proof {
            assert(toks.deep_view() =~= old_toks.deep_view() + seq![token_model(tok)]);
        }
        pos = pos + n;
    }
    proof {
        assert(s@.skip(pos as int) =~= Seq::<char>::empty());
        assert(toks.deep_view() + spec_tokenize(s@.skip(pos as int), at_start && pos == 0)
            =~= toks.deep_view());
    }
    toks
}

/// The sum of a sequence of lengths.
pub open spec fn seq_sum(l: Seq<int>) -> int
    decreases l.len(),
{
    if l.len() == 0 {
        0
    } else {
        l[0] + seq_sum(l.drop_first())
    }
}

/// The half-open spans laid out by consecutive lengths, starting at
/// `off`.
pub open spec fn spans_of(l: Seq<int>, off: int) -> Seq<(int, int)>
    decreases l.len(),
{
    if l.len() == 0 {
        Seq::empty()
    } else {
        seq![(off, off + l[0])] + spans_of(l.drop_first(), off + l[0])
    }
}

/// Spans laid out from positive lengths are non-empty, consecutive,
/// start at `off` and end at `off` plus the lengths' sum.
pub proof fn lemma_spans_of(l: Seq<int>, off: int)
    requires
        forall|k: int| 0 <= k < l.len() ==> l[k] >= 1,
    ensures
        spans_of(l, off).len() == l.len(),
        forall|k: int| 0 <= k < l.len() ==> #[trigger] spans_of(l, off)[k].0 < spans_of(l, off)[k].1,
        forall|k: int|
            0 <= k < l.len() - 1 ==> #[trigger] spans_of(l, off)[k].1 == spans_of(l, off)[k + 1].0,
        l.len() > 0 ==> spans_of(l, off)[0].0 == off,
        l.len() > 0 ==> spans_of(l, off)[l.len() - 1].1 == off + seq_sum(l),
    decreases l.len(),
{
    if l.len() > 0 {
        let tail = l.drop_first();
        assert(forall|k: int| 0 <= k < tail.len() ==> tail[k] == l[k + 1] && l[k + 1] >= 1);
        lemma_spans_of(tail, off + l[0]);
        let sp = spans_of(l, off);
        let sp_tail = spans_of(tail, off + l[0]);
        assert(sp == seq![(off, off + l[0])] + sp_tail);
        assert(forall|k: int| 1 <= k < sp.len() ==> sp[k] == sp_tail[k - 1]);
        assert(sp[0] == (off, off + l[0]));
        assert(seq_sum(l) == l[0] + seq_sum(tail));
        if tail.len() > 0 {
            assert(sp[sp.len() - 1] == sp_tail[sp_tail.len() - 1]);
        }
    }
}

/// Every recognizer step consumes at least one character, so the spans
/// recorded beside the token stream are exactly as many as the tokens,
/// each non-empty, and together they sum to the whole input: the token
/// spans partition the input with no gaps and no overlaps.
pub proof fn lemma_tokenize_partitions(s: Seq<char>, at_start: bool)
    ensures
        spec_token_lens(s, at_start).len() == spec_tokenize(s, at_start).len(),
        forall|k: int|
            0 <= k < spec_token_lens(s, at_start).len() ==> #[trigger] spec_token_lens(
                s,
                at_start,
            )[k] >= 1,
        seq_sum(spec_token_lens(s, at_start)) == s.len(),
    decreases s.len(),
{
    if s.len() == 0 {
    } else {
        match spec_next_token(s, at_start) {
            Some(p) => {
                let n = if 1 <= p.1 <= s.len() {
                    p.1
                } else {
                    1
                };
                assert(s.skip(n).len() == s.len() - n);
                lemma_tokenize_partitions(s.skip(n), false);
                let lens = spec_token_lens(s, at_start);
                let tail = spec_token_lens(s.skip(n), false);
                assert(lens == seq![n] + tail);
                assert(lens.drop_first() =~= tail);
                assert(seq_sum(lens) == n + seq_sum(tail));
                assert(forall|k: int| 1 <= k < lens.len() ==> lens[k] == #[trigger] tail[k - 1]);
            },
            None => {
                assert(spec_text(s) is Some);
                assert(false);
            },
        }
    }
}

/// The token spans of a tokenization, as explicit index ranges: they
/// cover the input from its start to its end, consecutively and
/// without empty, overlapping or missing pieces.
pub proof fn lemma_token_spans_partition(s: Seq<char>)
    ensures
        ({
            let sp = spans_of(spec_token_lens(s, true), 0);
            &&& sp.len() == spec_tokenize(s, true).len()
            &&& forall|k: int| 0 <= k < sp.len() ==> #[trigger] sp[k].0 < sp[k].1
            &&& forall|k: int| 0 <= k < sp.len() - 1 ==> #[trigger] sp[k].1 == sp[k + 1].0
            &&& sp.len() > 0 ==> sp[0].0 == 0
            &&& sp.len() > 0 ==> sp[sp.len() - 1].1 == s.len()
            &&& s.len() > 0 ==> sp.len() > 0
        }),
{
    lemma_tokenize_partitions(s, true);
    lemma_spans_of(spec_token_lens(s, true), 0);
}

/// A string wholly free of structural characters — whatever scripts,
/// accents or combining marks it holds — comes back as one plain-text
/// token carrying the entire string: the tokenizer never cuts into a
/// run of non-structural characters, so it cannot split a grapheme
/// written with them.
pub proof fn lemma_plain_text_unsplit(s: Seq<char>, at_start: bool)
    requires
        s.len() >= 1,
        forall|j: int| 0 <= j < s.len() ==> !crate::spec_special_sign(s[j]),
        at_start ==> !crate::scan::is_at(s, crate::scan::non_ws_from(s, 0), "#REDIRECT"@),
    ensures
        spec_tokenize(s, at_start) == seq![TokenModel::PlainText { text: s }],
{
    reveal_strlit("&lt;!--");
    reveal_strlit("&lt;");
    reveal_strlit("&amp;nbsp;");
    reveal_strlit("#REDIRECT");
    assert(!crate::spec_special_sign(s[0]));
    assert(line_ending_len(s, 0) == 0) by {
        assert(s[0] != '\n');
        if s.len() >= 2 {
            assert(s[1] != '\n');
        }
    }
    assert(spec_comment(s) is None) by {
        if crate::scan::is_at(s, 0, "&lt;!--"@) {
            assert(s.subrange(0, 7)[0] == '&');
        }
    }
    assert(spec_html(s) is None) by {
        if crate::scan::is_at(s, 0, "&lt;"@) {
            assert(s.subrange(0, 4)[0] == '&');
        }
    }
    assert(spec_entity(s) is None) by {
        if crate::scan::is_at(s, 0, "&amp;nbsp;"@) {
            assert(s.subrange(0, 10)[0] == '&');
        }
    }
    crate::scan::lemma_special_from(s, 0);
    let t = crate::scan::special_from(s, 0);
    assert(t == s.len());
    assert(s.subrange(0, t) =~= s);
    assert(spec_next_token(s, at_start) == Some((TokenModel::PlainText { text: s }, s.len() as int)));
    let n = s.len() as int;
    assert(s.skip(n).len() == 0);
    assert(spec_tokenize(s.skip(n), false) == Seq::<TokenModel>::empty());
    assert(spec_tokenize(s, at_start) == seq![TokenModel::PlainText { text: s }] + spec_tokenize(
        s.skip(n),
        false,
    ));
    assert(spec_tokenize(s, at_start) =~= seq![TokenModel::PlainText { text: s }]);
}

/// The structural invariants of one produced token: heading and list
/// levels are at least one; a template's name is trimmed and free of
/// unconsumed braces and bars; list children satisfy the same
/// invariants in turn.
pub open spec fn token_wf(t: TokenModel) -> bool
    decreases t, 1int,
    via token_wf_decreases
{
    match t {
        TokenModel::Heading { level, text } => level >= 1 && text == trim_seq(text),
        TokenModel::ListEntry { level, children, .. } => {
            &&& level >= 1
            &&& tokens_wf(children)
            &&& tokens_inline(children)
        },
        TokenModel::Template { name } => {
            &&& name == trim_seq(name)
            &&& forall|j: int| 0 <= j < name.len() ==> name[j] != '}' && name[j] != '|'
            &&& forall|j: int|
                0 <= j && j + 1 < name.len() ==> !((#[trigger] name[j]) == '{' && name[j
                    + 1] == '{')
        },
        _ => true,
    }
}

/// Whether a token can occur inside a single line: list children never
/// cross a line boundary, so no break, heading, list entry or redirect
/// stands among them.
pub open spec fn inline_token(t: TokenModel) -> bool {
    match t {
        TokenModel::PlainText { .. } => true,
        TokenModel::Link { .. } => true,
        TokenModel::Template { .. } => true,
        TokenModel::HtmlInlineElement { .. } => true,
        TokenModel::HtmlEntity { .. } => true,
        TokenModel::Comment => true,
        TokenModel::Ignore => true,
        _ => false,
    }
}

/// Whether every token of the stream is an inline token.
pub open spec fn tokens_inline(ts: Seq<TokenModel>) -> bool {
    forall|i: int| 0 <= i < ts.len() ==> inline_token(ts[i])
}

#[via_fn]
proof fn token_wf_decreases(t: TokenModel) {
    match t {
        TokenModel::ListEntry { kind, level, children } => {
            assert(decreases_to!(t => children));
        },
        _ => {},
    }
}

/// Whether every token of the stream satisfies [`token_wf`].
pub open spec fn tokens_wf(ts: Seq<TokenModel>) -> bool
    decreases ts, 0int,
{
    forall|i: int| 0 <= i < ts.len() ==> token_wf(ts[i])
}

/// A freshly recognized token is well-formed: whichever rule produced
/// it established its invariants.
proof fn lemma_next_token_wf(s: Seq<char>, at_start: bool, t: TokenModel, n: int)
    requires
        spec_next_token(s, at_start) == Some((t, n)),
    ensures
        token_wf(t),
    decreases s.len(), 1int,
{
    if spec_comment(s) is Some {
    } else if spec_redirect(s, at_start) is Some {
    } else if spec_quotes(s) is Some {
    } else if spec_template(s) is Some {
        let name_end = name_delim_from(s, 2);
        lemma_name_delim_from(s, 2);
        let raw = s.subrange(2, name_end);
        let name = trim_seq(raw);
        let a = non_ws_from(raw, 0);
        lemma_trim_seq_trimmed(raw);
        lemma_trim_seq_index(raw);
        assert forall|j: int| 0 <= j < name.len() implies name[j] != '}' && name[j] != '|' by {
            assert(name[j] == raw[a + j]);
            assert(raw[a + j] == s[2 + a + j]);
            assert(!name_stop_at(s, 2 + a + j));
        }
        assert forall|j: int| 0 <= j && j + 1 < name.len() implies !((#[trigger] name[j]) == '{'
            && name[j + 1] == '{') by {
            assert(name[j] == raw[a + j] && raw[a + j] == s[2 + a + j]);
            assert(name[j + 1] == raw[a + j + 1] && raw[a + j + 1] == s[2 + a + j + 1]);
            assert(!name_stop_at(s, 2 + a + j));
        }
    } else if spec_link(s) is Some {
    } else if spec_single_link(s) is Some {
    } else if spec_header(s) is Some {
        let r = line_run_end(s, 0);
        let l_end = char_run_end(s, r, '=');
        let text_end = char_till(s, l_end, '=');
        lemma_trim_seq_trimmed(s.subrange(l_end, text_end));
    } else if spec_hline(s) is Some {
    } else if spec_list(s, ListKind::Unordered, '*') is Some {
        lemma_list_children_wf(s, ListKind::Unordered, '*');
    } else if spec_list(s, ListKind::Ordered, '#') is Some {
        lemma_list_children_wf(s, ListKind::Ordered, '#');
    } else {
    }
}

/// On input holding no line break — the inside of one list line — no
/// line-anchored rule can fire, so the stream is inline tokens
/// throughout.
pub proof fn lemma_tokenize_inline(s: Seq<char>)
    requires
        forall|j: int| 0 <= j < s.len() ==> s[j] != '\n',
    ensures
        tokens_inline(spec_tokenize(s, false)),
    decreases s.len(),
{
    if s.len() > 0 {
        assert(line_ending_len(s, 0) == 0) by {
            assert(s[0] != '\n');
            if s.len() >= 2 {
                assert(s[1] != '\n');
            }
        }
        match spec_next_token(s, false) {
            Some(p) => {
                let n = if 1 <= p.1 <= s.len() {
                    p.1
                } else {
                    1
                };
                assert(inline_token(p.0));
                assert(forall|j: int| 0 <= j < s.skip(n).len() ==> s.skip(n)[j] == s[n + j]);
                lemma_tokenize_inline(s.skip(n));
                let whole = spec_tokenize(s, false);
                let tail = spec_tokenize(s.skip(n), false);
                assert(whole == seq![p.0] + tail);
                assert forall|i: int| 0 <= i < whole.len() implies inline_token(whole[i]) by {
                    if i >= 1 {
                        assert(whole[i] == tail[i - 1]);
                    }
                }
            },
            None => {
            },
        }
    }
}

/// The children of a recognized list entry are well-formed and inline.
proof fn lemma_list_children_wf(s: Seq<char>, kind: ListKind, marker: char)
    requires
        spec_list(s, kind, marker) is Some,
    ensures
        match spec_list(s, kind, marker) {
            Some(p) => p.0 matches TokenModel::ListEntry { level, children, .. } && level >= 1
                && tokens_wf(children) && tokens_inline(children),
            None => true,
        },
    decreases s.len(), 0int,
{
    lemma_line_run(s, 0);
    let r = line_run_end(s, 0);
    lemma_char_run_end(s, r, marker);
    let m_end = char_run_end(s, r, marker);
    lemma_line_break_from(s, m_end);
    let content_end = line_break_from(s, m_end);
    let raw = s.subrange(m_end, content_end);
    let content = trim_seq(raw);
    lemma_trim_seq_len(raw);
    lemma_trim_seq_index(raw);
    assert(r >= 1);
    assert(content.len() < s.len());
    assert forall|j: int| 0 <= j < content.len() implies content[j] != '\n' by {
        assert(content[j] == raw[non_ws_from(raw, 0) + j]);
        assert(raw[non_ws_from(raw, 0) + j] == s[m_end + non_ws_from(raw, 0) + j]);
    }
    lemma_tokenize_wf(content, false);
    lemma_tokenize_inline(content);
}

/// Everything the tokenizer produces is well-formed: levels are
/// positive, template names are trimmed and closed off, and the
/// invariants hold below every list entry.
pub proof fn lemma_tokenize_wf(s: Seq<char>, at_start: bool)
    ensures
        tokens_wf(spec_tokenize(s, at_start)),
    decreases s.len(), 2int,
{
    if s.len() == 0 {
    } else {
        match spec_next_token(s, at_start) {
            Some(p) => {
                let n = if 1 <= p.1 <= s.len() {
                    p.1
                } else {
                    1
                };
                lemma_next_token_wf(s, at_start, p.0, p.1);
                lemma_tokenize_wf(s.skip(n), false);
                let whole = spec_tokenize(s, at_start);
                let tail = spec_tokenize(s.skip(n), false);
                assert(whole == seq![p.0] + tail);
                assert forall|i: int| 0 <= i < whole.len() implies token_wf(whole[i]) by {
                    if i >= 1 {
                        assert(whole[i] == tail[i - 1]);
                    }
                }
            },
            None => {
            },
        }
    }
}

/// Turns wikitext into its ordered token stream.  Tokenization itself
/// cannot fail: any text whose characters reach this function is
/// tokenized, and malformed constructs degrade to plain text.
pub fn tokenize(text: &str) -> (r: Result<Vec<Token>, String>)
    ensures
        match r {
            Ok(toks) => toks.deep_view() == spec_tokenize(text@, true),
            Err(_) => false,
        },
{
    Ok(tokenize_at(text, true))
}

} // verus!
