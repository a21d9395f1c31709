//! Character-boundary-safe scanning primitives.
//!
//! All scanning works on whole `char`s — a multi-byte code point is never
//! split — and every exec scanner is proved equal to a spec counterpart
//! over the string's `Seq<char>` view.

use vstd::prelude::*;

verus! {

/// The whitespace characters that trimming and run-skipping recognize.
pub open spec fn spec_is_ws(c: char) -> bool {
    c == ' ' || c == '\t' || c == '\r' || c == '\n'
}

/// Decides [`spec_is_ws`].
pub fn is_ws(c: char) -> (r: bool)
    ensures
        r == spec_is_ws(c),
{
    c == ' ' || c == '\t' || c == '\r' || c == '\n'
}

/// Whether the template-name scan stops at index `i`: a closing brace,
/// a parameter bar, or the opening pair of a nested template.  A lone
/// `{` does not end the name.
pub open spec fn name_stop_at(s: Seq<char>, i: int) -> bool {
    0 <= i < s.len() && (s[i] == '}' || s[i] == '|' || (s[i] == '{' && i + 1 < s.len() && s[i
        + 1] == '{'))
}

/// The length of the line ending starting at `i`: one for a bare line
/// feed, two for a carriage-return-line-feed pair, zero otherwise.
pub open spec fn line_ending_len(s: Seq<char>, i: int) -> int {
    if 0 <= i < s.len() && s[i] == '\n' {
        1
    } else if 0 <= i && i + 1 < s.len() && s[i] == '\r' && s[i + 1] == '\n' {
        2
    } else {
        0
    }
}

/// Whether `pat` occurs in `s` starting exactly at index `i`.
pub open spec fn is_at(s: Seq<char>, i: int, pat: Seq<char>) -> bool {
    0 <= i && i + pat.len() <= s.len() && s.subrange(i, i + pat.len()) == pat
}

/// The first index at or after `from` where the non-empty pattern `pat`
/// occurs in `s`.
pub open spec fn find_at(s: Seq<char>, pat: Seq<char>, from: int) -> Option<int>
    decreases s.len() - from,
{
    if from < 0 || from + pat.len() > s.len() || pat.len() == 0 {
        None
    } else if s.subrange(from, from + pat.len()) == pat {
        Some(from)
    } else {
        find_at(s, pat, from + 1)
    }
}

/// The index just past the run of copies of `c` that starts at `from`:
/// the first index at or after `from` holding a different character, or
/// the sequence's length.
pub open spec fn char_run_end(s: Seq<char>, from: int, c: char) -> int
    decreases s.len() - from,
{
    if 0 <= from < s.len() {
        if s[from] == c {
            char_run_end(s, from + 1, c)
        } else {
            from
        }
    } else {
        s.len() as int
    }
}

/// Bounds and contents of the run that [`char_run_end`] skips.
pub proof fn lemma_char_run_end(s: Seq<char>, from: int, c: char)
    requires
        0 <= from <= s.len(),
    ensures
        from <= char_run_end(s, from, c) <= s.len(),
        forall|j: int| from <= j < char_run_end(s, from, c) ==> s[j] == c,
        char_run_end(s, from, c) < s.len() ==> s[char_run_end(s, from, c)] != c,
    decreases s.len() - from,
{
    if from < s.len() && s[from] == c {
        lemma_char_run_end(s, from + 1, c);
    }
}

/// The first index at or after `from` holding exactly `c`, or the
/// sequence's length.
pub open spec fn char_till(s: Seq<char>, from: int, c: char) -> int
    decreases s.len() - from,
{
    if 0 <= from < s.len() {
        if s[from] == c {
            from
        } else {
            char_till(s, from + 1, c)
        }
    } else {
        s.len() as int
    }
}

/// Bounds and contents of the stretch that [`char_till`] passes over.
pub proof fn lemma_char_till(s: Seq<char>, from: int, c: char)
    requires
        0 <= from <= s.len(),
    ensures
        from <= char_till(s, from, c) <= s.len(),
        forall|j: int| from <= j < char_till(s, from, c) ==> s[j] != c,
        char_till(s, from, c) < s.len() ==> s[char_till(s, from, c)] == c,
    decreases s.len() - from,
{
    if from < s.len() && s[from] != c {
        lemma_char_till(s, from + 1, c);
    }
}

/// The first index at or after `from` holding a non-whitespace
/// character, or the sequence's length.
pub open spec fn non_ws_from(s: Seq<char>, from: int) -> int
    decreases s.len() - from,
{
    if 0 <= from < s.len() {
        if spec_is_ws(s[from]) {
            non_ws_from(s, from + 1)
        } else {
            from
        }
    } else {
        s.len() as int
    }
}

/// Bounds and contents of the whitespace run that [`non_ws_from`] skips.
pub proof fn lemma_non_ws_from(s: Seq<char>, from: int)
    requires
        0 <= from <= s.len(),
    ensures
        from <= non_ws_from(s, from) <= s.len(),
        forall|j: int| from <= j < non_ws_from(s, from) ==> spec_is_ws(s[j]),
        non_ws_from(s, from) < s.len() ==> !spec_is_ws(s[non_ws_from(s, from)]),
    decreases s.len() - from,
{
    if from < s.len() && spec_is_ws(s[from]) {
        lemma_non_ws_from(s, from + 1);
    }
}

/// The greatest index at or before `from` holding a non-whitespace
/// character, or `-1` if all of `s` up to `from` is whitespace.
pub open spec fn non_ws_back(s: Seq<char>, from: int) -> int
    decreases from + 1,
{
    if 0 <= from < s.len() {
        if spec_is_ws(s[from]) {
            non_ws_back(s, from - 1)
        } else {
            from
        }
    } else {
        -1
    }
}

/// Bounds and contents of the whitespace tail that [`non_ws_back`]
/// skips.
pub proof fn lemma_non_ws_back(s: Seq<char>, from: int)
    requires
        -1 <= from < s.len(),
    ensures
        -1 <= non_ws_back(s, from) <= from,
        forall|j: int| non_ws_back(s, from) < j <= from ==> spec_is_ws(s[j]),
        non_ws_back(s, from) >= 0 ==> !spec_is_ws(s[non_ws_back(s, from)]),
    decreases from + 1,
{
    if 0 <= from < s.len() && spec_is_ws(s[from]) {
        lemma_non_ws_back(s, from - 1);
    }
}

/// The first index at or after `from` holding whitespace, or the
/// sequence's length.
pub open spec fn ws_from(s: Seq<char>, from: int) -> int
    decreases s.len() - from,
{
    if 0 <= from < s.len() {
        if spec_is_ws(s[from]) {
            from
        } else {
            ws_from(s, from + 1)
        }
    } else {
        s.len() as int
    }
}

/// The greatest index at or before `from` holding exactly `c`, or `-1`
/// if none does.
pub open spec fn char_back(s: Seq<char>, from: int, c: char) -> int
    decreases from + 1,
{
    if 0 <= from < s.len() {
        if s[from] == c {
            from
        } else {
            char_back(s, from - 1, c)
        }
    } else {
        -1
    }
}

/// The first index at or after `from` holding a structural character,
/// or the sequence's length.
pub open spec fn special_from(s: Seq<char>, from: int) -> int
    decreases s.len() - from,
{
    if 0 <= from < s.len() {
        if crate::spec_special_sign(s[from]) {
            from
        } else {
            special_from(s, from + 1)
        }
    } else {
        s.len() as int
    }
}

/// Bounds and contents of the plain run that [`special_from`] passes
/// over.
pub proof fn lemma_special_from(s: Seq<char>, from: int)
    requires
        0 <= from <= s.len(),
    ensures
        from <= special_from(s, from) <= s.len(),
        forall|j: int| from <= j < special_from(s, from) ==> !crate::spec_special_sign(s[j]),
        special_from(s, from) < s.len() ==> crate::spec_special_sign(s[special_from(s, from)]),
    decreases s.len() - from,
{
    if from < s.len() && !crate::spec_special_sign(s[from]) {
        lemma_special_from(s, from + 1);
    }
}

/// The first index at or after `from` where the template-name scan
/// stops, or the sequence's length.
pub open spec fn name_delim_from(s: Seq<char>, from: int) -> int
    decreases s.len() - from,
{
    if 0 <= from < s.len() {
        if name_stop_at(s, from) {
            from
        } else {
            name_delim_from(s, from + 1)
        }
    } else {
        s.len() as int
    }
}

/// Bounds and contents of the name that [`name_delim_from`] passes
/// over.
pub proof fn lemma_name_delim_from(s: Seq<char>, from: int)
    requires
        0 <= from <= s.len(),
    ensures
        from <= name_delim_from(s, from) <= s.len(),
        forall|j: int| from <= j < name_delim_from(s, from) ==> !name_stop_at(s, j),
        name_delim_from(s, from) < s.len() ==> name_stop_at(s, name_delim_from(s, from)),
    decreases s.len() - from,
{
    if from < s.len() && !name_stop_at(s, from) {
        lemma_name_delim_from(s, from + 1);
    }
}

/// The index just past the run of line endings that starts at `i`.
pub open spec fn line_run_end(s: Seq<char>, i: int) -> int
    decreases s.len() - i,
{
    if line_ending_len(s, i) > 0 {
        line_run_end(s, i + line_ending_len(s, i))
    } else {
        i
    }
}

/// How many line endings the run starting at `i` holds.
pub open spec fn line_run_count(s: Seq<char>, i: int) -> int
    decreases s.len() - i,
{
    if line_ending_len(s, i) > 0 {
        1 + line_run_count(s, i + line_ending_len(s, i))
    } else {
        0
    }
}

/// Bounds of a run of line endings and of its count.
pub proof fn lemma_line_run(s: Seq<char>, i: int)
    requires
        0 <= i <= s.len(),
    ensures
        i <= line_run_end(s, i) <= s.len(),
        line_run_count(s, i) >= 0,
        line_ending_len(s, i) > 0 ==> line_run_end(s, i) >= i + 1,
        line_run_count(s, i) == 0 <==> line_ending_len(s, i) == 0,
    decreases s.len() - i,
{
    if line_ending_len(s, i) > 0 {
        lemma_line_run(s, i + line_ending_len(s, i));
    }
}

/// The first index at or after `from` where a line ending starts, or
/// the sequence's length.
pub open spec fn line_break_from(s: Seq<char>, from: int) -> int
    decreases s.len() - from,
{
    if 0 <= from < s.len() {
        if line_ending_len(s, from) > 0 {
            from
        } else {
            line_break_from(s, from + 1)
        }
    } else {
        s.len() as int
    }
}

/// Bounds and contents of the line that [`line_break_from`] passes
/// over: no line ending starts in it, and in particular it holds no
/// line feed at all.
pub proof fn lemma_line_break_from(s: Seq<char>, from: int)
    requires
        0 <= from <= s.len(),
    ensures
        from <= line_break_from(s, from) <= s.len(),
        forall|j: int| from <= j < line_break_from(s, from) ==> line_ending_len(s, j) == 0,
        forall|j: int| from <= j < line_break_from(s, from) ==> s[j] != '\n',
        line_break_from(s, from) < s.len() ==> line_ending_len(s, line_break_from(s, from)) > 0,
    decreases s.len() - from,
{
    if from < s.len() && line_ending_len(s, from) == 0 {
        lemma_line_break_from(s, from + 1);
    }
}

/// `s` with leading and trailing whitespace removed.
pub open spec fn trim_seq(s: Seq<char>) -> Seq<char> {
    let a = non_ws_from(s, 0);
    let b = non_ws_back(s, s.len() - 1);
    if a <= b {
        s.subrange(a, b + 1)
    } else {
        Seq::empty()
    }
}

/// Trimming never lengthens a string.
pub proof fn lemma_trim_seq_len(s: Seq<char>)
    ensures
        trim_seq(s).len() <= s.len(),
{
    if s.len() > 0 {
        lemma_non_ws_from(s, 0);
        lemma_non_ws_back(s, s.len() - 1);
    }
}

/// A trimmed string is its own trim: trimming is idempotent.
pub proof fn lemma_trim_seq_trimmed(y: Seq<char>)
    ensures
        trim_seq(trim_seq(y)) == trim_seq(y),
{
    let a = non_ws_from(y, 0);
    let b = non_ws_back(y, y.len() - 1);
    if y.len() == 0 {
        assert(trim_seq(y) == Seq::<char>::empty());
        assert(trim_seq(Seq::<char>::empty()) == Seq::<char>::empty());
    } else {
        lemma_non_ws_from(y, 0);
        lemma_non_ws_back(y, y.len() - 1);
        if a <= b {
            let x = y.subrange(a, b + 1);
            assert(!spec_is_ws(x[0]));
            assert(!spec_is_ws(x[x.len() - 1]));
            assert(non_ws_from(x, 0) == 0);
            assert(non_ws_back(x, x.len() - 1) == x.len() - 1);
            assert(trim_seq(x) =~= x);
        } else {
            assert(trim_seq(y) == Seq::<char>::empty());
            assert(trim_seq(Seq::<char>::empty()) == Seq::<char>::empty());
        }
    }
}

/// A trimmed string reads the original from the first non-whitespace
/// character on: position by position, character for character.
pub proof fn lemma_trim_seq_index(y: Seq<char>)
    ensures
        0 <= non_ws_from(y, 0),
        non_ws_from(y, 0) + trim_seq(y).len() <= y.len(),
        forall|j: int|
            0 <= j < trim_seq(y).len() ==> #[trigger] trim_seq(y)[j] == y[non_ws_from(y, 0) + j],
{
    if y.len() > 0 {
        lemma_non_ws_from(y, 0);
        lemma_non_ws_back(y, y.len() - 1);
    }
}

/// Whether `pat` occurs in `s` at index `i`, decided character by
/// character.
#[verifier::loop_isolation(false)]
pub fn str_has_at(s: &str, i: usize, pat: &str) -> (r: bool)
    ensures
        r == is_at(s@, i as int, pat@),
{
    let s_len = s.unicode_len();
    let pat_len = pat.unicode_len();
    if i > s_len || pat_len > s_len - i {
        return false;
    }
    let mut k: usize = 0;
    while k < pat_len
        invariant
            i + pat_len <= s_len,
            s_len == s@.len(),
            pat_len == pat@.len(),
            0 <= k <= pat_len,
            forall|j: int| 0 <= j < k ==> s@[i + j] == pat@[j],
        decreases pat_len - k,
    {
        if s.get_char(i + k) != pat.get_char(k) {
            assert(s@.subrange(i as int, i + pat@.len())[k as int] != pat@[k as int]);
            return false;
        }
        k = k + 1;
    }
    assert(s@.subrange(i as int, i + pat@.len()) =~= pat@);
    true
}

/// Finds the first occurrence of `pat` in `s` at or after `from`.
#[verifier::loop_isolation(false)]
pub fn find_str(s: &str, pat: &str, from: usize) -> (r: Option<usize>)
    requires
        from <= s@.len(),
        pat@.len() >= 1,
    ensures
        match r {
            Some(i) => find_at(s@, pat@, from as int) == Some(i as int) && from <= i
                && i + pat@.len() <= s@.len(),
            None => find_at(s@, pat@, from as int) is None,
        },
{
    let s_len = s.unicode_len();
    let pat_len = pat.unicode_len();
    let mut i: usize = from;
    while i <= s_len && pat_len <= s_len - i
        invariant
            from <= i,
            s_len == s@.len(),
            pat_len == pat@.len(),
            i <= s_len + 1,
            find_at(s@, pat@, from as int) == find_at(s@, pat@, i as int),
        decreases s_len + 1 - i,
    {
        if str_has_at(s, i, pat) {
            assert(s@.subrange(i as int, i + pat@.len()) == pat@);
            return Some(i);
        }
        assert(s@.subrange(i as int, i + pat@.len()) != pat@);
        i = i + 1;
    }
    None
}

/// The index just past the run of copies of `c` that starts at `from`.
#[verifier::loop_isolation(false)]
pub fn run_end(s: &str, from: usize, c: char) -> (r: usize)
    requires
        from <= s@.len(),
    ensures
        r == char_run_end(s@, from as int, c),
        from <= r <= s@.len(),
        forall|j: int| from <= j < r ==> s@[j] == c,
        r < s@.len() ==> s@[r as int] != c,
{
    let s_len = s.unicode_len();
    let mut i: usize = from;
    while i < s_len && s.get_char(i) == c
        invariant
            from <= i <= s_len,
            s_len == s@.len(),
            char_run_end(s@, from as int, c) == char_run_end(s@, i as int, c),
            forall|j: int| from <= j < i ==> s@[j] == c,
        decreases s_len - i,
    {
        i = i + 1;
    }
    i
}

/// The first index at or after `from` holding exactly the character `c`,
/// or the string's length.
#[verifier::loop_isolation(false)]
pub fn till_char(s: &str, from: usize, c: char) -> (r: usize)
    requires
        from <= s@.len(),
    ensures
        r == char_till(s@, from as int, c),
        from <= r <= s@.len(),
        forall|j: int| from <= j < r ==> s@[j] != c,
        r < s@.len() ==> s@[r as int] == c,
{
    let s_len = s.unicode_len();
    let mut i: usize = from;
    while i < s_len && s.get_char(i) != c
        invariant
            from <= i <= s_len,
            s_len == s@.len(),
            char_till(s@, from as int, c) == char_till(s@, i as int, c),
            forall|j: int| from <= j < i ==> s@[j] != c,
        decreases s_len - i,
    {
        i = i + 1;
    }
    i
}

/// The index just past the run of whitespace that starts at `from`.
#[verifier::loop_isolation(false)]
pub fn skip_ws(s: &str, from: usize) -> (r: usize)
    requires
        from <= s@.len(),
    ensures
        r == non_ws_from(s@, from as int),
        from <= r <= s@.len(),
        r < s@.len() ==> !spec_is_ws(s@[r as int]),
{
    let s_len = s.unicode_len();
    let mut i: usize = from;
    while i < s_len && is_ws(s.get_char(i))
        invariant
            from <= i <= s_len,
            s_len == s@.len(),
            non_ws_from(s@, from as int) == non_ws_from(s@, i as int),
        decreases s_len - i,
    {
        i = i + 1;
    }
    i
}

/// The first index at or after `from` holding whitespace, or the
/// string's length.
#[verifier::loop_isolation(false)]
pub fn till_ws(s: &str, from: usize) -> (r: usize)
    requires
        from <= s@.len(),
    ensures
        r == ws_from(s@, from as int),
        from <= r <= s@.len(),
{
    let s_len = s.unicode_len();
    let mut i: usize = from;
    while i < s_len && !is_ws(s.get_char(i))
        invariant
            from <= i <= s_len,
            s_len == s@.len(),
            ws_from(s@, from as int) == ws_from(s@, i as int),
        decreases s_len - i,
    {
        i = i + 1;
    }
    i
}

/// The first index at or after `from` holding a structural character,
/// or the string's length.
#[verifier::loop_isolation(false)]
pub fn till_special(s: &str, from: usize) -> (r: usize)
    requires
        from <= s@.len(),
    ensures
        r == special_from(s@, from as int),
        from <= r <= s@.len(),
{
    let s_len = s.unicode_len();
    let mut i: usize = from;
    while i < s_len && !crate::special_sign(s.get_char(i))
        invariant
            from <= i <= s_len,
            s_len == s@.len(),
            special_from(s@, from as int) == special_from(s@, i as int),
        decreases s_len - i,
    {
        i = i + 1;
    }
    i
}

/// Decides [`name_stop_at`].
pub fn is_name_stop(s: &str, i: usize) -> (r: bool)
    requires
        i <= s@.len(),
    ensures
        r == name_stop_at(s@, i as int),
{
    let s_len = s.unicode_len();
    if i >= s_len {
        return false;
    }
    let c = s.get_char(i);
    if c == '}' || c == '|' {
        return true;
    }
    c == '{' && i + 1 < s_len && s.get_char(i + 1) == '{'
}

/// The first index at or after `from` where the template-name scan
/// stops, or the string's length.
#[verifier::loop_isolation(false)]
pub fn till_name_delim(s: &str, from: usize) -> (r: usize)
    requires
        from <= s@.len(),
    ensures
        r == name_delim_from(s@, from as int),
        from <= r <= s@.len(),
{
    let s_len = s.unicode_len();
    let mut i: usize = from;
    while i < s_len && !is_name_stop(s, i)
        invariant
            from <= i <= s_len,
            s_len == s@.len(),
            name_delim_from(s@, from as int) == name_delim_from(s@, i as int),
        decreases s_len - i,
    {
        i = i + 1;
    }
    i
}

/// Decides [`line_ending_len`].
pub fn scan_line_ending(s: &str, i: usize) -> (k: usize)
    requires
        i <= s@.len(),
    ensures
        k as int == line_ending_len(s@, i as int),
        k <= 2,
        i + k <= s@.len(),
{
    let s_len = s.unicode_len();
    if i < s_len {
        let c = s.get_char(i);
        if c == '\n' {
            return 1;
        }
        if c == '\r' && i + 1 < s_len && s.get_char(i + 1) == '\n' {
            return 2;
        }
    }
    0
}

/// The end and the count of the run of line endings starting at `from`.
#[verifier::loop_isolation(false)]
pub fn line_run(s: &str, from: usize) -> (r: (usize, usize))
    requires
        from <= s@.len(),
    ensures
        r.0 as int == line_run_end(s@, from as int),
        r.1 as int == line_run_count(s@, from as int),
        from <= r.0 <= s@.len(),
        line_ending_len(s@, from as int) > 0 ==> r.0 >= from + 1,
{
    let s_len = s.unicode_len();
    let mut i: usize = from;
    let mut count: usize = 0;
    let mut k = scan_line_ending(s, i);
    while k > 0
        invariant
            from <= i <= s_len,
            s_len == s@.len(),
            count <= i,
            k as int == line_ending_len(s@, i as int),
            i + k <= s_len,
            line_run_end(s@, from as int) == line_run_end(s@, i as int),
            line_run_count(s@, from as int) == count + line_run_count(s@, i as int),
        decreases s_len - i,
    {
        i = i + k;
        count = count + 1;
        k = scan_line_ending(s, i);
    }
    proof {
        lemma_line_run(s@, from as int);
    }
    (i, count)
}

/// The first index at or after `from` where a line ending starts, or
/// the string's length.
#[verifier::loop_isolation(false)]
pub fn till_line_break(s: &str, from: usize) -> (r: usize)
    requires
        from <= s@.len(),
    ensures
        r as int == line_break_from(s@, from as int),
        from <= r <= s@.len(),
{
    let s_len = s.unicode_len();
    let mut i: usize = from;
    while i < s_len && scan_line_ending(s, i) == 0
        invariant
            from <= i <= s_len,
            s_len == s@.len(),
            line_break_from(s@, from as int) == line_break_from(s@, i as int),
        decreases s_len - i,
    {
        i = i + 1;
    }
    i
}

/// The greatest index at or before `from` holding exactly `c`, if any.
#[verifier::loop_isolation(false)]
pub fn back_till_char(s: &str, from: usize, c: char) -> (r: Option<usize>)
    requires
        from < s@.len(),
        from < usize::MAX,
    ensures
        match r {
            Some(j) => char_back(s@, from as int, c) == j as int && j <= from,
            None => char_back(s@, from as int, c) == -1,
        },
{
    let mut j: usize = from + 1;
    while j > 0
        invariant
            j <= from + 1,
            from < s@.len(),
            char_back(s@, from as int, c) == char_back(s@, j - 1, c),
        decreases j,
    {
        if s.get_char(j - 1) == c {
            return Some(j - 1);
        }
        j = j - 1;
    }
    None
}

/// Copies the character range `[lo, hi)` of `s` into an owned string.
pub fn substring_string(s: &str, lo: usize, hi: usize) -> (r: String)
    requires
        lo <= hi <= s@.len(),
    ensures
        r@ == s@.subrange(lo as int, hi as int),
{
    String::from_str(s.substring_char(lo, hi))
}

/// The whitespace-trimmed copy of `s`.
#[verifier::loop_isolation(false)]
pub fn trim_of(s: &str) -> (r: String)
    ensures
        r@ == trim_seq(s@),
        r@.len() <= s@.len(),
{
    let s_len = s.unicode_len();
    let mut a: usize = 0;
    while a < s_len && is_ws(s.get_char(a))
        invariant
            0 <= a <= s_len,
            s_len == s@.len(),
            non_ws_from(s@, 0) == non_ws_from(s@, a as int),
        decreases s_len - a,
    {
        a = a + 1;
    }
    assert(a == non_ws_from(s@, 0));
    let mut b: usize = s_len;
    while b > a && is_ws(s.get_char(b - 1))
        invariant
            a <= b <= s_len,
            s_len == s@.len(),
            a == non_ws_from(s@, 0),
            a < s_len ==> !spec_is_ws(s@[a as int]),
            a < s_len ==> b >= a + 1,
            non_ws_back(s@, s_len - 1) == non_ws_back(s@, b - 1),
        decreases b,
    {
        b = b - 1;
    }
    let r = substring_string(s, a, b);
    proof {
        let b0 = non_ws_back(s@, s_len - 1);
        if b > a {
            assert(!spec_is_ws(s@[b - 1]));
            assert(b0 == b - 1);
            assert(r@ == trim_seq(s@));
        } else {
            assert(a == s_len);
            if s_len > 0 {
                lemma_non_ws_back(s@, s_len - 1);
            }
            assert(b0 < a);
            assert(r@ =~= trim_seq(s@));
        }
        lemma_trim_seq_len(s@);
    }
    r
}

} // verus!
