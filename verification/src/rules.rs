//! The non-recursive token recognizer rules.
//!
//! Each rule inspects the remaining input and either consumes a prefix,
//! yielding one token and the consumed length, or declines.  Every exec
//! rule is proved to agree exactly with its spec counterpart; the list
//! rules, which re-enter the tokenizer, live with the driver instead.

use vstd::prelude::*;

use crate::scan::{
    char_back, char_run_end, char_till, find_at, is_at, line_break_from, line_ending_len,
    line_run_count, line_run_end, name_delim_from, non_ws_from, spec_is_ws, trim_seq, ws_from,
};
use crate::scan::{
    back_till_char, find_str, line_run, run_end, scan_line_ending, skip_ws, str_has_at,
    substring_string, till_char, till_line_break, till_name_delim, till_special, till_ws, trim_of,
};
use crate::scan::special_from;
use crate::token::{token_model, ListKind, Token, TokenModel};

verus! {

/// How an exec rule's result corresponds to a spec rule's: both decline,
/// or both yield the same token model and consumed length.
pub open spec fn tok_rel(r: Option<(Token, usize)>, m: Option<(TokenModel, int)>) -> bool {
    match r {
        Some(p) => m == Some((token_model(p.0), p.1 as int)),
        None => m is None,
    }
}

/// A consumed length is positive and within the remaining input.
pub open spec fn consumed_ok(r: Option<(Token, usize)>, s: Seq<char>) -> bool {
    r matches Some(p) ==> 1 <= p.1 <= s.len()
}

/// Comment rule: an escaped comment opener, anything up to and including
/// the first escaped closer; the payload is discarded.
pub open spec fn spec_comment(s: Seq<char>) -> Option<(TokenModel, int)> {
    if is_at(s, 0, "&lt;!--"@) {
        match find_at(s, "--&gt;"@, 7) {
            Some(e) => Some((TokenModel::Comment, e + 6)),
            None => None,
        }
    } else {
        None
    }
}

/// Decides [`spec_comment`].
pub fn try_comment(s: &str) -> (r: Option<(Token, usize)>)
    ensures
        tok_rel(r, spec_comment(s@)),
        consumed_ok(r, s@),
{
    proof {
        reveal_strlit("&lt;!--");
        reveal_strlit("--&gt;");
    }
    let _s_len = s.unicode_len();
    if str_has_at(s, 0, "&lt;!--") {
        match find_str(s, "--&gt;", 7) {
            Some(e) => Some((Token::Comment, e + 6)),
            None => None,
        }
    } else {
        None
    }
}

/// Redirect rule: at the start of the input or directly after a line
/// break, optional whitespace and then the redirect keyword.
pub open spec fn spec_redirect(s: Seq<char>, at_start: bool) -> Option<(TokenModel, int)> {
    let j = non_ws_from(s, 0);
    if (at_start || line_ending_len(s, 0) > 0) && is_at(s, j, "#REDIRECT"@) {
        Some((TokenModel::Redirect, j + 9))
    } else {
        None
    }
}

/// Decides [`spec_redirect`].
pub fn try_redirect(s: &str, at_start: bool) -> (r: Option<(Token, usize)>)
    ensures
        tok_rel(r, spec_redirect(s@, at_start)),
        consumed_ok(r, s@),
{
    proof {
        reveal_strlit("#REDIRECT");
    }
    let _s_len = s.unicode_len();
    let line_ok = at_start || scan_line_ending(s, 0) > 0;
    if !line_ok {
        return None;
    }
    let j = skip_ws(s, 0);
    if str_has_at(s, j, "#REDIRECT") {
        Some((Token::Redirect, j + 9))
    } else {
        None
    }
}

/// Bold/italic rule: a run of apostrophes taken as a five-, three- or
/// two-character formatting delimiter, longest first, with no payload.
pub open spec fn spec_quotes(s: Seq<char>) -> Option<(TokenModel, int)> {
    let q = char_run_end(s, 0, '\'');
    if q >= 5 {
        Some((TokenModel::Ignore, 5))
    } else if q >= 3 {
        Some((TokenModel::Ignore, 3))
    } else if q >= 2 {
        Some((TokenModel::Ignore, 2))
    } else {
        None
    }
}

/// Decides [`spec_quotes`].
pub fn try_quotes(s: &str) -> (r: Option<(Token, usize)>)
    ensures
        tok_rel(r, spec_quotes(s@)),
        consumed_ok(r, s@),
{
    let q = run_end(s, 0, '\'');
    if q >= 5 {
        Some((Token::Ignore, 5))
    } else if q >= 3 {
        Some((Token::Ignore, 3))
    } else if q >= 2 {
        Some((Token::Ignore, 2))
    } else {
        None
    }
}

/// Where the template that opened just before index `i` closes, while
/// `level` openings are outstanding: nested `{{`/`}}` pairs move the
/// level, any other character is skipped, and running out of input
/// before the level returns to zero means no closure.
pub open spec fn spec_template_end(s: Seq<char>, i: int, level: int) -> Option<int>
    decreases s.len() - i,
{
    if i < 0 || i >= s.len() {
        None
    } else if i + 1 < s.len() && s[i] == '{' && s[i + 1] == '{' {
        spec_template_end(s, i + 2, level + 1)
    } else if i + 1 < s.len() && s[i] == '}' && s[i + 1] == '}' {
        if level <= 1 {
            Some(i + 2)
        } else {
            spec_template_end(s, i + 2, level - 1)
        }
    } else {
        spec_template_end(s, i + 1, level)
    }
}

/// Decides `spec_template_end(s@, 2, 1)`, the closure scan for a
/// template that opened at index 0.
#[verifier::loop_isolation(false)]
pub fn find_template_end(s: &str) -> (r: Option<usize>)
    requires
        2 <= s@.len(),
    ensures
        match r {
            Some(e) => spec_template_end(s@, 2, 1) == Some(e as int) && 4 <= e <= s@.len(),
            None => spec_template_end(s@, 2, 1) is None,
        },
{
    let s_len = s.unicode_len();
    let mut i: usize = 2;
    let mut level: usize = 1;
    while i < s_len
        invariant
            2 <= i,
            i <= s_len + 1,
            s_len == s@.len(),
            1 <= level,
            2 * (level as int) <= i as int,
            spec_template_end(s@, 2, 1) == spec_template_end(s@, i as int, level as int),
        decreases s_len - i,
    {
        if i + 1 < s_len && s.get_char(i) == '{' && s.get_char(i + 1) == '{' {
            level = level + 1;
            i = i + 2;
        } else if i + 1 < s_len && s.get_char(i) == '}' && s.get_char(i + 1) == '}' {
            if level == 1 {
                return Some(i + 2);
            }
            level = level - 1;
            i = i + 2;
        } else {
            i = i + 1;
        }
    }
    None
}

/// Template rule: `{{`, then a balanced scan to the matching `}}`; the
/// name is the trimmed text before the first `|` or `}` or nested `{{`,
/// whichever comes first — a lone `{` stays part of the name.  An
/// unclosed template declines.
pub open spec fn spec_template(s: Seq<char>) -> Option<(TokenModel, int)> {
    if s.len() >= 2 && s[0] == '{' && s[1] == '{' {
        match spec_template_end(s, 2, 1) {
            Some(e) => Some(
                (TokenModel::Template { name: trim_seq(s.subrange(2, name_delim_from(s, 2))) }, e),
            ),
            None => None,
        }
    } else {
        None
    }
}

/// Decides [`spec_template`].
pub fn try_template(s: &str) -> (r: Option<(Token, usize)>)
    ensures
        tok_rel(r, spec_template(s@)),
        consumed_ok(r, s@),
{
    let s_len = s.unicode_len();
    if s_len >= 2 && s.get_char(0) == '{' && s.get_char(1) == '{' {
        match find_template_end(s) {
            Some(e) => {
                let nd = till_name_delim(s, 2);
                let name = trim_of(s.substring_char(2, nd));
                Some((Token::Template { name }, e))
            },
            None => None,
        }
    } else {
        None
    }
}

/// Link rule: `[[`, content up to the first `]]`, and the target is the
/// piece after the content's last bar.  Brackets left unterminated
/// before the line or input ends decline.
pub open spec fn spec_link(s: Seq<char>) -> Option<(TokenModel, int)> {
    if s.len() >= 2 && s[0] == '[' && s[1] == '[' {
        match find_at(s, "]]"@, 2) {
            Some(e) => {
                if e < line_break_from(s, 2) {
                    let q = char_back(s, e - 1, '|');
                    let target = if q >= 0 {
                        s.subrange(q + 1, e)
                    } else {
                        s.subrange(2, e)
                    };
                    Some((TokenModel::Link { target }, e + 2))
                } else {
                    None
                }
            },
            None => None,
        }
    } else {
        None
    }
}

/// Decides [`spec_link`].
pub fn try_link(s: &str) -> (r: Option<(Token, usize)>)
    ensures
        tok_rel(r, spec_link(s@)),
        consumed_ok(r, s@),
{
    proof {
        reveal_strlit("]]");
    }
    let s_len = s.unicode_len();
    if s_len >= 2 && s.get_char(0) == '[' && s.get_char(1) == '[' {
        match find_str(s, "]]", 2) {
            Some(e) => {
                let nl = till_line_break(s, 2);
                if e < nl {
                    let target = match back_till_char(s, e - 1, '|') {
                        Some(q) => substring_string(s, q + 1, e),
                        None => substring_string(s, 2, e),
                    };
                    Some((Token::Link { target }, e + 2))
                } else {
                    None
                }
            },
            None => None,
        }
    } else {
        None
    }
}

/// Single-bracket link rule: `[`, content up to the first `]`, the
/// whole content as target.  The close must come before the line or
/// input ends.
pub open spec fn spec_single_link(s: Seq<char>) -> Option<(TokenModel, int)> {
    if s.len() >= 1 && s[0] == '[' {
        let e = char_till(s, 1, ']');
        if e < line_break_from(s, 1) {
            Some((TokenModel::Link { target: s.subrange(1, e) }, e + 1))
        } else {
            None
        }
    } else {
        None
    }
}

/// Decides [`spec_single_link`].
pub fn try_single_link(s: &str) -> (r: Option<(Token, usize)>)
    ensures
        tok_rel(r, spec_single_link(s@)),
        consumed_ok(r, s@),
{
    let s_len = s.unicode_len();
    if s_len >= 1 && s.get_char(0) == '[' {
        let e = till_char(s, 1, ']');
        let nl = till_line_break(s, 1);
        if e < nl {
            Some((Token::Link { target: substring_string(s, 1, e) }, e + 1))
        } else {
            None
        }
    } else {
        None
    }
}

/// Heading rule: after the line break run, a run of `=` signs, interior
/// text up to the next `=`, and a closing run of exactly the same
/// count; the interior text is trimmed.  A closing run of any other
/// length declines and the line is re-read as plain text.
pub open spec fn spec_header(s: Seq<char>) -> Option<(TokenModel, int)> {
    if line_ending_len(s, 0) > 0 {
        let r = line_run_end(s, 0);
        let l_end = char_run_end(s, r, '=');
        if l_end > r {
            let l = l_end - r;
            let text_end = char_till(s, l_end, '=');
            let close_end = char_run_end(s, text_end, '=');
            if close_end - text_end == l {
                Some(
                    (
                        TokenModel::Heading {
                            level: l as nat,
                            text: trim_seq(s.subrange(l_end, text_end)),
                        },
                        text_end + l,
                    ),
                )
            } else {
                None
            }
        } else {
            None
        }
    } else {
        None
    }
}

/// Decides [`spec_header`].
pub fn try_header(s: &str) -> (r: Option<(Token, usize)>)
    ensures
        tok_rel(r, spec_header(s@)),
        consumed_ok(r, s@),
{
    if scan_line_ending(s, 0) == 0 {
        return None;
    }
    let nl_run = line_run(s, 0).0;
    let l_end = run_end(s, nl_run, '=');
    if l_end > nl_run {
        let l = l_end - nl_run;
        let text_end = till_char(s, l_end, '=');
        let close_end = run_end(s, text_end, '=');
        if close_end - text_end == l {
            let text = trim_of(s.substring_char(l_end, text_end));
            Some((Token::Heading { level: l, text }, text_end + l))
        } else {
            None
        }
    } else {
        None
    }
}

/// Horizontal-rule rule: after the line break run, four or more
/// hyphens followed by a line break, folded into a paragraph break.
/// The trailing line break stays unconsumed, so the rules anchored to a
/// line start can still fire after the rule.
pub open spec fn spec_hline(s: Seq<char>) -> Option<(TokenModel, int)> {
    if line_ending_len(s, 0) > 0 {
        let r = line_run_end(s, 0);
        let d = char_run_end(s, r, '-');
        if d - r >= 4 && line_ending_len(s, d) > 0 {
            Some((TokenModel::ParagraphBreak, d))
        } else {
            None
        }
    } else {
        None
    }
}

/// Decides [`spec_hline`].
pub fn try_hline(s: &str) -> (r: Option<(Token, usize)>)
    ensures
        tok_rel(r, spec_hline(s@)),
        consumed_ok(r, s@),
{
    if scan_line_ending(s, 0) == 0 {
        return None;
    }
    let nl_run = line_run(s, 0).0;
    let d = run_end(s, nl_run, '-');
    if d - nl_run >= 4 && scan_line_ending(s, d) > 0 {
        Some((Token::ParagraphBreak, d))
    } else {
        None
    }
}

/// Definition-list rule: after the line break run, a run of `marker`
/// characters, folded into a single line break.
pub open spec fn spec_defn(s: Seq<char>, marker: char) -> Option<(TokenModel, int)> {
    if line_ending_len(s, 0) > 0 {
        let r = line_run_end(s, 0);
        let m = char_run_end(s, r, marker);
        if m > r {
            Some((TokenModel::LineBreak, m))
        } else {
            None
        }
    } else {
        None
    }
}

/// Decides [`spec_defn`] for the given marker.
pub fn try_defn(s: &str, marker: char) -> (r: Option<(Token, usize)>)
    ensures
        tok_rel(r, spec_defn(s@, marker)),
        consumed_ok(r, s@),
{
    if scan_line_ending(s, 0) == 0 {
        return None;
    }
    let nl_run = line_run(s, 0).0;
    let m = run_end(s, nl_run, marker);
    if m > nl_run {
        Some((Token::LineBreak, m))
    } else {
        None
    }
}

/// HTML inline element rule: an escaped open tag whose name is the
/// first whitespace-separated word inside it, inner text up to the
/// first escaped closer, and a closing tag whose name matches exactly;
/// any missing piece declines.
pub open spec fn spec_html(s: Seq<char>) -> Option<(TokenModel, int)> {
    if is_at(s, 0, "&lt;"@) {
        match find_at(s, "&gt;"@, 4) {
            Some(g) => {
                let a = non_ws_from(s, 4);
                if a < g {
                    let w = ws_from(s, a);
                    let b = if w < g {
                        w
                    } else {
                        g
                    };
                    let name = s.subrange(a, b);
                    match find_at(s, "&lt;/"@, g + 4) {
                        Some(cs) => {
                            if is_at(s, cs + 5, name) && is_at(s, cs + 5 + name.len(), "&gt;"@) {
                                Some(
                                    (
                                        TokenModel::HtmlInlineElement {
                                            tag_name: name,
                                            inner_text: s.subrange(g + 4, cs),
                                        },
                                        cs + 5 + name.len() + 4,
                                    ),
                                )
                            } else {
                                None
                            }
                        },
                        None => None,
                    }
                } else {
                    None
                }
            },
            None => None,
        }
    } else {
        None
    }
}

/// Decides [`spec_html`].
pub fn try_html(s: &str) -> (r: Option<(Token, usize)>)
    ensures
        tok_rel(r, spec_html(s@)),
        consumed_ok(r, s@),
{
    proof {
        reveal_strlit("&lt;");
        reveal_strlit("&gt;");
        reveal_strlit("&lt;/");
    }
    let _s_len = s.unicode_len();
    if !str_has_at(s, 0, "&lt;") {
        return None;
    }
    let g = match find_str(s, "&gt;", 4) {
        Some(g) => g,
        None => {
            return None;
        },
    };
    let a = skip_ws(s, 4);
    if a >= g {
        return None;
    }
    let w = till_ws(s, a);
    let b = if w < g {
        w
    } else {
        g
    };
    let name = s.substring_char(a, b);
    let cs = match find_str(s, "&lt;/", g + 4) {
        Some(cs) => cs,
        None => {
            return None;
        },
    };
    if !str_has_at(s, cs + 5, name) {
        return None;
    }
    let name_len = b - a;
    if !str_has_at(s, cs + 5 + name_len, "&gt;") {
        return None;
    }
    let tag_name = substring_string(s, a, b);
    let inner_text = substring_string(s, g + 4, cs);
    Some((Token::HtmlInlineElement { tag_name, inner_text }, cs + 5 + name_len + 4))
}

/// HTML entity rule: the escaped non-breaking space becomes a plain
/// space; otherwise an ampersand with a name up to the first semicolon.
pub open spec fn spec_entity(s: Seq<char>) -> Option<(TokenModel, int)> {
    if is_at(s, 0, "&amp;nbsp;"@) {
        Some((TokenModel::HtmlEntity { name: " "@ }, 10))
    } else if s.len() >= 1 && s[0] == '&' {
        let e = char_till(s, 1, ';');
        if e < s.len() {
            Some((TokenModel::HtmlEntity { name: s.subrange(1, e) }, e + 1))
        } else {
            None
        }
    } else {
        None
    }
}

/// Decides [`spec_entity`].
pub fn try_entity(s: &str) -> (r: Option<(Token, usize)>)
    ensures
        tok_rel(r, spec_entity(s@)),
        consumed_ok(r, s@),
{
    proof {
        reveal_strlit("&amp;nbsp;");
        reveal_strlit(" ");
    }
    let s_len = s.unicode_len();
    if str_has_at(s, 0, "&amp;nbsp;") {
        return Some((Token::HtmlEntity { name: String::from_str(" ") }, 10));
    }
    if s_len >= 1 && s.get_char(0) == '&' {
        let e = till_char(s, 1, ';');
        if e < s_len {
            return Some((Token::HtmlEntity { name: substring_string(s, 1, e) }, e + 1));
        }
    }
    None
}

/// Paragraph rule: two or more consecutive line endings, the whole run
/// consumed.
pub open spec fn spec_paragraph(s: Seq<char>) -> Option<(TokenModel, int)> {
    if line_run_count(s, 0) >= 2 {
        Some((TokenModel::ParagraphBreak, line_run_end(s, 0)))
    } else {
        None
    }
}

/// Decides [`spec_paragraph`].
pub fn try_paragraph(s: &str) -> (r: Option<(Token, usize)>)
    ensures
        tok_rel(r, spec_paragraph(s@)),
        consumed_ok(r, s@),
{
    let run = line_run(s, 0);
    if run.1 >= 2 {
        Some((Token::ParagraphBreak, run.0))
    } else {
        None
    }
}

/// Line-break rule: a single line ending.
pub open spec fn spec_newline(s: Seq<char>) -> Option<(TokenModel, int)> {
    if line_ending_len(s, 0) > 0 {
        Some((TokenModel::LineBreak, line_ending_len(s, 0)))
    } else {
        None
    }
}

/// Decides [`spec_newline`].
pub fn try_newline(s: &str) -> (r: Option<(Token, usize)>)
    ensures
        tok_rel(r, spec_newline(s@)),
        consumed_ok(r, s@),
{
    let k = scan_line_ending(s, 0);
    if k > 0 {
        Some((Token::LineBreak, k))
    } else {
        None
    }
}

/// Plain-text fallback: the longest run free of structural characters,
/// or failing that a single character, so the tokenizer always makes
/// progress.
pub open spec fn spec_text(s: Seq<char>) -> Option<(TokenModel, int)> {
    if s.len() == 0 {
        None
    } else {
        let t = special_from(s, 0);
        if t >= 1 {
            Some((TokenModel::PlainText { text: s.subrange(0, t) }, t))
        } else {
            Some((TokenModel::PlainText { text: s.subrange(0, 1) }, 1))
        }
    }
}

/// Decides [`spec_text`]; total on non-empty input.
pub fn take_text(s: &str) -> (r: (Token, usize))
    requires
        s@.len() >= 1,
    ensures
        spec_text(s@) == Some((token_model(r.0), r.1 as int)),
        1 <= r.1 <= s@.len(),
{
    let t = till_special(s, 0);
    if t >= 1 {
        (Token::PlainText { text: substring_string(s, 0, t) }, t)
    } else {
        (Token::PlainText { text: substring_string(s, 0, 1) }, 1)
    }
}

} // verus!
