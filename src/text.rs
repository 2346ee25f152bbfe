//! Character-level text handling: tag stripping, entity replacement and the
//! normalizer built from them.
use vstd::prelude::*;

verus! {

/// Characters of the Unicode `White_Space` property.
pub uninterp spec fn is_space_char(c: char) -> bool;

/// Characters of the Unicode word class: `Alphabetic`, `Join_Control`,
/// `Decimal_Number`, `Mark` and `Connector_Punctuation`.
pub uninterp spec fn is_word_char(c: char) -> bool;

/// An ASCII character of the `White_Space` property: tab, line feed, vertical
/// tab, form feed, carriage return and space.
pub open spec fn is_ascii_space(c: char) -> bool {
    c == '\t' || c == '\n' || c == '\u{b}' || c == '\u{c}' || c == '\r' || c == ' '
}

/// An ASCII word character: `[0-9A-Za-z_]`.
pub open spec fn is_ascii_word(c: char) -> bool {
    ('0' <= c && c <= '9') || ('A' <= c && c <= 'Z') || ('a' <= c && c <= 'z') || c == '_'
}

/// Relies on `char::is_whitespace`: true exactly for `White_Space` characters,
/// which among ASCII ones are tab, line feed, vertical tab, form feed,
/// carriage return and space.
#[verifier::external_body]
fn space_char(c: char) -> (r: bool)
    ensures
        r == is_space_char(c),
        (c as u32) < 128 ==> (r <==> is_ascii_space(c)),
{
    c.is_whitespace()
}

/// Relies on `regex_syntax::is_word_character`: true exactly for Unicode word
/// characters (the crate is built with its Unicode tables); among ASCII ones
/// these are `[0-9A-Za-z_]`.
#[verifier::external_body]
fn word_char(c: char) -> (r: bool)
    ensures
        r == is_word_char(c),
        (c as u32) < 128 ==> (r <==> is_ascii_word(c)),
{
    regex_syntax::is_word_character(c)
}

/// Relies on `str::chars`, collected into a vector: the characters of `s` in order.
#[verifier::external_body]
pub fn chars_of(s: &str) -> (r: Vec<char>)
    ensures
        r@ == s@,
{
    s.chars().collect()
}

/// Relies on `String: FromIterator<&char>`: the string made of the characters of `v`.
#[verifier::external_body]
pub fn string_of(v: &[char]) -> (r: String)
    ensures
        r@ == v@,
{
    v.iter().collect()
}

// ---------------------------------------------------------------------------
// Scanning helpers
// ---------------------------------------------------------------------------

/// First index at or after `i` that does not hold a whitespace character.
pub open spec fn skip_spaces(s: Seq<char>, i: int) -> int
    decreases s.len() - i,
{
    if 0 <= i < s.len() && is_space_char(s[i]) {
        skip_spaces(s, i + 1)
    } else {
        i
    }
}

/// First index at or after `i` holding `c`, or the length of `s`.
pub open spec fn find_char(s: Seq<char>, c: char, i: int) -> int
    decreases s.len() - i,
{
    if 0 <= i < s.len() && s[i] != c {
        find_char(s, c, i + 1)
    } else {
        i
    }
}

/// A character allowed in the name of a closing tag.
pub open spec fn is_close_name_char(c: char) -> bool {
    is_word_char(c) || c == '+'
}

/// First index at or after `i` that does not hold a closing-tag name character.
pub open spec fn skip_close_name(s: Seq<char>, i: int) -> int
    decreases s.len() - i,
{
    if 0 <= i < s.len() && is_close_name_char(s[i]) {
        skip_close_name(s, i + 1)
    } else {
        i
    }
}

pub proof fn lemma_skip_spaces_bounds(s: Seq<char>, i: int)
    requires
        0 <= i <= s.len(),
    ensures
        i <= skip_spaces(s, i) <= s.len(),
    decreases s.len() - i,
{
    if i < s.len() && is_space_char(s[i]) {
        lemma_skip_spaces_bounds(s, i + 1);
    }
}

pub proof fn lemma_find_char_bounds(s: Seq<char>, c: char, i: int)
    requires
        0 <= i <= s.len(),
    ensures
        i <= find_char(s, c, i) <= s.len(),
        find_char(s, c, i) < s.len() ==> s[find_char(s, c, i)] == c,
        forall|k: int| i <= k < find_char(s, c, i) ==> s[k] != c,
    decreases s.len() - i,
{
    if i < s.len() && s[i] != c {
        lemma_find_char_bounds(s, c, i + 1);
    }
}

pub proof fn lemma_skip_close_name_bounds(s: Seq<char>, i: int)
    requires
        0 <= i <= s.len(),
    ensures
        i <= skip_close_name(s, i) <= s.len(),
    decreases s.len() - i,
{
    if i < s.len() && is_close_name_char(s[i]) {
        lemma_skip_close_name_bounds(s, i + 1);
    }
}

// ---------------------------------------------------------------------------
// Tags
// ---------------------------------------------------------------------------

/// End (exclusive) of an opening tag that starts at `i`: `<`, optional
/// whitespace, a word character, then everything up to the first `>`.
/// Equals `i` when no opening tag starts there.
pub open spec fn open_tag_end(s: Seq<char>, i: int) -> int {
    if 0 <= i < s.len() && s[i] == '<' {
        let j = skip_spaces(s, i + 1);
        if j < s.len() && is_word_char(s[j]) {
            let k = find_char(s, '>', j + 1);
            if k < s.len() {
                k + 1
            } else {
                i
            }
        } else {
            i
        }
    } else {
        i
    }
}

/// End (exclusive) of a closing tag that starts at `i`: `</`, one or more
/// word characters or `+`, then `>`. Equals `i` when none starts there.
pub open spec fn close_tag_end(s: Seq<char>, i: int) -> int {
    if 0 <= i && i + 1 < s.len() && s[i] == '<' && s[i + 1] == '/' {
        let k = skip_close_name(s, i + 2);
        if k > i + 2 && k < s.len() && s[k] == '>' {
            k + 1
        } else {
            i
        }
    } else {
        i
    }
}

/// `s` from index `i` on, with every opening tag removed, scanning left to right.
pub open spec fn strip_open_from(s: Seq<char>, i: int) -> Seq<char>
    decreases s.len() - i,
{
    if i < 0 || i >= s.len() {
        Seq::empty()
    } else if open_tag_end(s, i) > i {
        strip_open_from(s, open_tag_end(s, i))
    } else {
        seq![s[i]] + strip_open_from(s, i + 1)
    }
}

/// `s` from index `i` on, with every closing tag removed, scanning left to right.
pub open spec fn strip_close_from(s: Seq<char>, i: int) -> Seq<char>
    decreases s.len() - i,
{
    if i < 0 || i >= s.len() {
        Seq::empty()
    } else if close_tag_end(s, i) > i {
        strip_close_from(s, close_tag_end(s, i))
    } else {
        seq![s[i]] + strip_close_from(s, i + 1)
    }
}

pub open spec fn strip_open_tags(s: Seq<char>) -> Seq<char> {
    strip_open_from(s, 0)
}

pub open spec fn strip_close_tags(s: Seq<char>) -> Seq<char> {
    strip_close_from(s, 0)
}

proof fn lemma_open_tag_end_bounds(s: Seq<char>, i: int)
    requires
        0 <= i < s.len(),
    ensures
        i <= open_tag_end(s, i) <= s.len(),
{
    if s[i] == '<' {
        lemma_skip_spaces_bounds(s, i + 1);
        let j = skip_spaces(s, i + 1);
        if j < s.len() {
            lemma_find_char_bounds(s, '>', j + 1);
        }
    }
}

proof fn lemma_close_tag_end_bounds(s: Seq<char>, i: int)
    requires
        0 <= i < s.len(),
    ensures
        i <= close_tag_end(s, i) <= s.len(),
{
    if i + 1 < s.len() {
        lemma_skip_close_name_bounds(s, i + 2);
    }
}

fn skip_spaces_exec(s: &Vec<char>, i: usize) -> (r: usize)
    requires
        i <= s@.len(),
    ensures
        r as int == skip_spaces(s@, i as int),
{
    let mut j: usize = i;
    while j < s.len() && space_char(s[j])
        invariant
            i <= j <= s@.len(),
            skip_spaces(s@, j as int) == skip_spaces(s@, i as int),
        decreases s@.len() - j,
    {
        j = j + 1;
    }
    j
}

pub(crate) fn find_char_exec(s: &Vec<char>, c: char, i: usize) -> (r: usize)
    requires
        i <= s@.len(),
    ensures
        r as int == find_char(s@, c, i as int),
{
    let mut j: usize = i;
    while j < s.len() && s[j] != c
        invariant
            i <= j <= s@.len(),
            find_char(s@, c, j as int) == find_char(s@, c, i as int),
        decreases s@.len() - j,
    {
        j = j + 1;
    }
    j
}

fn skip_close_name_exec(s: &Vec<char>, i: usize) -> (r: usize)
    requires
        i <= s@.len(),
    ensures
        r as int == skip_close_name(s@, i as int),
{
    let mut j: usize = i;
    while j < s.len() && (s[j] == '+' || word_char(s[j]))
        invariant
            i <= j <= s@.len(),
            skip_close_name(s@, j as int) == skip_close_name(s@, i as int),
        decreases s@.len() - j,
    {
        j = j + 1;
    }
    j
}

fn open_tag_end_exec(s: &Vec<char>, i: usize) -> (r: usize)
    requires
        i < s@.len(),
    ensures
        r as int == open_tag_end(s@, i as int),
{
    let n: usize = s.len();
    if s[i] != '<' || i + 1 > n {
        return i;
    }
    let j: usize = skip_spaces_exec(s, i + 1);
    proof {
        lemma_skip_spaces_bounds(s@, i + 1);
    }
    if j < s.len() && word_char(s[j]) {
        let k: usize = find_char_exec(s, '>', j + 1);
        proof {
            lemma_find_char_bounds(s@, '>', j + 1);
        }
        if k < s.len() {
            k + 1
        } else {
            i
        }
    } else {
        i
    }
}

fn close_tag_end_exec(s: &Vec<char>, i: usize) -> (r: usize)
    requires
        i < s@.len(),
    ensures
        r as int == close_tag_end(s@, i as int),
{
    let n: usize = s.len();
    if n - i < 2 || s[i] != '<' || s[i + 1] != '/' {
        return i;
    }
    let k: usize = skip_close_name_exec(s, i + 2);
    proof {
        lemma_skip_close_name_bounds(s@, i + 2);
    }
    if k > i + 2 && k < s.len() && s[k] == '>' {
        k + 1
    } else {
        i
    }
}

/// Removes every opening tag from `s`.
pub fn strip_open_tags_exec(s: &Vec<char>) -> (r: Vec<char>)
    ensures
        r@ == strip_open_tags(s@),
{
    let mut out: Vec<char> = Vec::new();
    let mut i: usize = 0;
    while i < s.len()
        invariant
            i <= s@.len(),
            out@ + strip_open_from(s@, i as int) == strip_open_tags(s@),
        decreases s@.len() - i,
    {
        let e: usize = open_tag_end_exec(s, i);
        proof {
            lemma_open_tag_end_bounds(s@, i as int);
        }
        if e > i {
            i = e;
        } else {
            proof {
                assert(out@ + strip_open_from(s@, i as int) == out@.push(s@[i as int])
                    + strip_open_from(s@, i + 1));
            }
            out.push(s[i]);
            i = i + 1;
        }
    }
    proof {
        assert(out@ + Seq::<char>::empty() == out@);
    }
    out
}

/// Removes every closing tag from `s`.
pub fn strip_close_tags_exec(s: &Vec<char>) -> (r: Vec<char>)
    ensures
        r@ == strip_close_tags(s@),
{
    let mut out: Vec<char> = Vec::new();
    let mut i: usize = 0;
    while i < s.len()
        invariant
            i <= s@.len(),
            out@ + strip_close_from(s@, i as int) == strip_close_tags(s@),
        decreases s@.len() - i,
    {
        let e: usize = close_tag_end_exec(s, i);
        proof {
            lemma_close_tag_end_bounds(s@, i as int);
        }
        if e > i {
            i = e;
        } else {
            proof {
                assert(out@ + strip_close_from(s@, i as int) == out@.push(s@[i as int])
                    + strip_close_from(s@, i + 1));
            }
            out.push(s[i]);
            i = i + 1;
        }
    }
    proof {
        assert(out@ + Seq::<char>::empty() == out@);
    }
    out
}

// ---------------------------------------------------------------------------
// Replacement
// ---------------------------------------------------------------------------

/// `pat` occurs in `s` at index `i`.
pub open spec fn occurs_at(s: Seq<char>, pat: Seq<char>, i: int) -> bool {
    0 <= i && i + pat.len() <= s.len() && s.subrange(i, i + pat.len()) == pat
}

/// `s` from index `i` on, with each occurrence of `pat` replaced by `rep`,
/// occurrences taken left to right without overlap. An empty `pat` replaces nothing.
pub open spec fn replace_from(s: Seq<char>, pat: Seq<char>, rep: Seq<char>, i: int) -> Seq<char>
    decreases s.len() - i,
{
    if i < 0 || i >= s.len() {
        Seq::empty()
    } else if pat.len() > 0 && occurs_at(s, pat, i) {
        rep + replace_from(s, pat, rep, i + pat.len())
    } else {
        seq![s[i]] + replace_from(s, pat, rep, i + 1)
    }
}

pub open spec fn replace_all(s: Seq<char>, pat: Seq<char>, rep: Seq<char>) -> Seq<char> {
    replace_from(s, pat, rep, 0)
}

fn occurs_at_exec(s: &Vec<char>, pat: &Vec<char>, i: usize) -> (r: bool)
    requires
        i <= s@.len(),
    ensures
        r == occurs_at(s@, pat@, i as int),
{
    let n: usize = s.len();
    if pat.len() > n - i {
        return false;
    }
    let mut k: usize = 0;
    while k < pat.len()
        invariant
            k <= pat@.len(),
            n == s@.len(),
            i + pat@.len() <= s@.len(),
            forall|m: int| 0 <= m < k ==> s@[i + m] == pat@[m],
        decreases pat@.len() - k,
    {
        if s[i + k] != pat[k] {
            proof {
                assert(s@.subrange(i as int, i + pat@.len())[k as int] != pat@[k as int]);
            }
            return false;
        }
        k = k + 1;
    }
    proof {
        assert(s@.subrange(i as int, i + pat@.len()) =~= pat@);
    }
    true
}

/// Replaces each occurrence of `pat` in `s` by `rep`, left to right.
pub fn replace_all_exec(s: &Vec<char>, pat: &Vec<char>, rep: &Vec<char>) -> (r: Vec<char>)
    ensures
        r@ == replace_all(s@, pat@, rep@),
{
    let mut out: Vec<char> = Vec::new();
    let mut i: usize = 0;
    while i < s.len()
        invariant
            i <= s@.len(),
            out@ + replace_from(s@, pat@, rep@, i as int) == replace_all(s@, pat@, rep@),
        decreases s@.len() - i,
    {
        if pat.len() > 0 && occurs_at_exec(s, pat, i) {
            let ghost before = out@;
            let mut k: usize = 0;
            while k < rep.len()
                invariant
                    k <= rep@.len(),
                    out@ == before + rep@.subrange(0, k as int),
                decreases rep@.len() - k,
            {
                out.push(rep[k]);
                proof {
                    assert(rep@.subrange(0, k + 1) =~= rep@.subrange(0, k as int).push(rep@[k as int]));
                }
                k = k + 1;
            }
            proof {
                assert(rep@.subrange(0, rep@.len() as int) =~= rep@);
                assert(before + replace_from(s@, pat@, rep@, i as int) == out@ + replace_from(
                    s@,
                    pat@,
                    rep@,
                    i + pat@.len(),
                ));
            }
            i = i + pat.len();
        } else {
            proof {
                assert(out@ + replace_from(s@, pat@, rep@, i as int) == out@.push(s@[i as int])
                    + replace_from(s@, pat@, rep@, i + 1));
            }
            out.push(s[i]);
            i = i + 1;
        }
    }
    proof {
        assert(out@ + Seq::<char>::empty() == out@);
    }
    out
}

// ---------------------------------------------------------------------------
// Normalization
// ---------------------------------------------------------------------------

/// The character entity of a non-breaking space.
pub open spec fn nbsp_entity() -> Seq<char> {
    seq!['&', 'n', 'b', 's', 'p', ';']
}

/// The non-breaking space character itself.
pub open spec fn nbsp_char() -> Seq<char> {
    seq!['\u{a0}']
}

/// One pass over a fragment of markup: opening tags removed, then closing
/// tags, then each non-breaking space (entity or character) made a space.
pub open spec fn normalize_pass(s: Seq<char>) -> Seq<char> {
    replace_all(
        replace_all(strip_close_tags(strip_open_tags(s)), nbsp_entity(), seq![' ']),
        nbsp_char(),
        seq![' '],
    )
}

/// Passes repeated from `t` on while they still shorten the text.
pub open spec fn settle(t: Seq<char>) -> Seq<char>
    decreases t.len(),
{
    if normalize_pass(t).len() < t.len() {
        settle(normalize_pass(t))
    } else {
        t
    }
}

/// A fragment of markup turned into plain text: passes repeated until the
/// text no longer changes.
pub open spec fn normalize(s: Seq<char>) -> Seq<char> {
    settle(normalize_pass(s))
}

/// No opening or closing tag starts anywhere in `s`.
pub open spec fn tag_free(s: Seq<char>) -> bool {
    forall|i: int| 0 <= i < s.len() ==> open_tag_end(s, i) == i && close_tag_end(s, i) == i
}

/// `s` holds no non-breaking space, neither as entity nor as character.
pub open spec fn nbsp_free(s: Seq<char>) -> bool {
    forall|i: int|
        0 <= i < s.len() ==> !occurs_at(s, nbsp_entity(), i) && s[i] != '\u{a0}'
}

/// One pass over the characters of `s`.
fn normalize_pass_chars(s: &Vec<char>) -> (r: Vec<char>)
    ensures
        r@ == normalize_pass(s@),
{
    let no_open = strip_open_tags_exec(s);
    let no_close = strip_close_tags_exec(&no_open);
    let entity: Vec<char> = vec!['&', 'n', 'b', 's', 'p', ';'];
    let space: Vec<char> = vec![' '];
    let nbsp: Vec<char> = vec!['\u{a0}'];
    proof {
        assert(entity@ =~= nbsp_entity());
        assert(space@ =~= seq![' ']);
        assert(nbsp@ =~= nbsp_char());
    }
    let spaced = replace_all_exec(&no_close, &entity, &space);
    replace_all_exec(&spaced, &nbsp, &space)
}

/// Normalizes the characters of `s`.
pub fn normalize_chars(s: &Vec<char>) -> (r: Vec<char>)
    ensures
        r@ == normalize(s@),
        tag_free(r@),
        nbsp_free(r@),
{
    let mut t = normalize_pass_chars(s);
    proof {
        lemma_pass_no_nbsp_char(s@);
    }
    loop
        invariant
            settle(t@) == normalize(s@),
            no_nbsp_char(t@),
        decreases t@.len(),
    {
        let p = normalize_pass_chars(&t);
        if p.len() < t.len() {
            proof {
                lemma_pass_no_nbsp_char(t@);
            }
            t = p;
        } else {
            proof {
                lemma_pass_fixed(t@);
            }
            return t;
        }
    }
}

/// Strips the tags out of an HTML fragment and turns its non-breaking spaces
/// into plain spaces, until no tag and no non-breaking space is left.
pub fn strip_html_tags(text: &str) -> (r: String)
    ensures
        r@ == normalize(text@),
        tag_free(r@),
        nbsp_free(r@),
{
    let chars = chars_of(text);
    let out = normalize_chars(&chars);
    string_of(out.as_slice())
}

// ---------------------------------------------------------------------------
// Idempotence
// ---------------------------------------------------------------------------

/// `s` holds no non-breaking space character.
pub open spec fn no_nbsp_char(s: Seq<char>) -> bool {
    forall|i: int| 0 <= i < s.len() ==> s[i] != '\u{a0}'
}

/// Stripping opening tags never lengthens the text, and leaves it as it was
/// exactly when no opening tag starts anywhere.
proof fn lemma_strip_open_len(s: Seq<char>, i: int)
    requires
        0 <= i <= s.len(),
    ensures
        strip_open_from(s, i).len() <= s.len() - i,
        strip_open_from(s, i).len() == s.len() - i ==> strip_open_from(s, i) == s.subrange(
            i,
            s.len() as int,
        ) && forall|j: int| i <= j < s.len() ==> open_tag_end(s, j) == j,
    decreases s.len() - i,
{
    if i < s.len() {
        lemma_open_tag_end_bounds(s, i);
        let e = open_tag_end(s, i);
        if e > i {
            lemma_strip_open_len(s, e);
        } else {
            lemma_strip_open_len(s, i + 1);
            assert(s.subrange(i, s.len() as int) =~= seq![s[i]] + s.subrange(
                i + 1,
                s.len() as int,
            ));
        }
    } else {
        assert(s.subrange(i, s.len() as int) =~= Seq::<char>::empty());
    }
}

proof fn lemma_strip_close_len(s: Seq<char>, i: int)
    requires
        0 <= i <= s.len(),
    ensures
        strip_close_from(s, i).len() <= s.len() - i,
        strip_close_from(s, i).len() == s.len() - i ==> strip_close_from(s, i) == s.subrange(
            i,
            s.len() as int,
        ) && forall|j: int| i <= j < s.len() ==> close_tag_end(s, j) == j,
    decreases s.len() - i,
{
    if i < s.len() {
        lemma_close_tag_end_bounds(s, i);
        let e = close_tag_end(s, i);
        if e > i {
            lemma_strip_close_len(s, e);
        } else {
            lemma_strip_close_len(s, i + 1);
            assert(s.subrange(i, s.len() as int) =~= seq![s[i]] + s.subrange(
                i + 1,
                s.len() as int,
            ));
        }
    } else {
        assert(s.subrange(i, s.len() as int) =~= Seq::<char>::empty());
    }
}

/// Replacing by something shorter never lengthens the text, and leaves it as
/// it was exactly when the pattern occurs nowhere.
proof fn lemma_replace_len(s: Seq<char>, pat: Seq<char>, rep: Seq<char>, i: int)
    requires
        0 <= i <= s.len(),
        rep.len() < pat.len(),
    ensures
        replace_from(s, pat, rep, i).len() <= s.len() - i,
        replace_from(s, pat, rep, i).len() == s.len() - i ==> replace_from(s, pat, rep, i)
            == s.subrange(i, s.len() as int) && forall|j: int|
            i <= j < s.len() ==> !occurs_at(s, pat, j),
    decreases s.len() - i,
{
    if i < s.len() {
        if occurs_at(s, pat, i) {
            lemma_replace_len(s, pat, rep, i + pat.len());
        } else {
            lemma_replace_len(s, pat, rep, i + 1);
            assert(s.subrange(i, s.len() as int) =~= seq![s[i]] + s.subrange(
                i + 1,
                s.len() as int,
            ));
        }
    } else {
        assert(s.subrange(i, s.len() as int) =~= Seq::<char>::empty());
    }
}

proof fn lemma_replace_absent(s: Seq<char>, pat: Seq<char>, rep: Seq<char>, i: int)
    requires
        0 <= i <= s.len(),
        forall|j: int| i <= j < s.len() ==> !occurs_at(s, pat, j),
    ensures
        replace_from(s, pat, rep, i) == s.subrange(i, s.len() as int),
    decreases s.len() - i,
{
    if i < s.len() {
        lemma_replace_absent(s, pat, rep, i + 1);
        assert(s.subrange(i, s.len() as int) =~= seq![s[i]] + s.subrange(i + 1, s.len() as int));
    } else {
        assert(s.subrange(i, s.len() as int) =~= Seq::<char>::empty());
    }
}

/// Replacing a single character by another keeps the length and changes
/// exactly the positions that held it.
proof fn lemma_replace_char_pointwise(s: Seq<char>, c: char, d: char, i: int)
    requires
        0 <= i <= s.len(),
    ensures
        replace_from(s, seq![c], seq![d], i).len() == s.len() - i,
        forall|k: int|
            0 <= k < s.len() - i ==> #[trigger] replace_from(s, seq![c], seq![d], i)[k] == if s[i
                + k] == c {
                d
            } else {
                s[i + k]
            },
    decreases s.len() - i,
{
    if i < s.len() {
        lemma_replace_char_pointwise(s, c, d, i + 1);
        let pat = seq![c];
        assert(occurs_at(s, pat, i) <==> s[i] == c) by {
            if s[i] == c {
                assert(s.subrange(i, i + 1) =~= pat);
            }
            if occurs_at(s, pat, i) {
                assert(s.subrange(i, i + 1)[0] == s[i]);
            }
        }
        let w = replace_from(s, pat, seq![d], i);
        let w1 = replace_from(s, pat, seq![d], i + 1);
        assert forall|k: int| 0 <= k < s.len() - i implies #[trigger] w[k] == if s[i + k] == c {
            d
        } else {
            s[i + k]
        } by {
            if k > 0 {
                assert(w[k] == w1[k - 1]);
            }
        }
    }
}

/// A pass leaves no non-breaking space character.
proof fn lemma_pass_no_nbsp_char(s: Seq<char>)
    ensures
        no_nbsp_char(normalize_pass(s)),
{
    let y = replace_all(strip_close_tags(strip_open_tags(s)), nbsp_entity(), seq![' ']);
    lemma_replace_char_pointwise(y, '\u{a0}', ' ', 0);
    assert(nbsp_char() == seq!['\u{a0}']);
    let n = normalize_pass(s);
    assert forall|i: int| 0 <= i < n.len() implies n[i] != '\u{a0}' by {
        assert(n[i] == if y[i] == '\u{a0}' {
            ' '
        } else {
            y[i]
        });
    }
}

/// A pass that does not shorten a text free of non-breaking space characters
/// changes nothing, and the text holds no tag and no non-breaking space.
proof fn lemma_pass_fixed(t: Seq<char>)
    requires
        no_nbsp_char(t),
        normalize_pass(t).len() >= t.len(),
    ensures
        normalize_pass(t) == t,
        tag_free(t),
        nbsp_free(t),
        settle(t) == t,
{
    let o = strip_open_tags(t);
    let c = strip_close_tags(o);
    let e = replace_all(c, nbsp_entity(), seq![' ']);
    lemma_strip_open_len(t, 0);
    lemma_strip_close_len(o, 0);
    lemma_replace_len(c, nbsp_entity(), seq![' '], 0);
    lemma_replace_char_pointwise(e, '\u{a0}', ' ', 0);
    assert(nbsp_char() == seq!['\u{a0}']);
    assert(t.subrange(0, t.len() as int) =~= t);
    assert(o.subrange(0, o.len() as int) =~= o);
    assert(c.subrange(0, c.len() as int) =~= c);
    assert(o == t);
    assert(c == t);
    assert(e == t);
    assert forall|j: int| 0 <= j < t.len() implies !occurs_at(t, nbsp_char(), j) by {
        if occurs_at(t, nbsp_char(), j) {
            assert(t.subrange(j, j + 1)[0] == t[j]);
        }
    }
    lemma_replace_absent(t, nbsp_char(), seq![' '], 0);
}

/// Normalizing a normalized text changes nothing, and a normalized text holds
/// no tag and no non-breaking space.
pub proof fn lemma_normalize_idempotent(s: Seq<char>)
    ensures
        normalize(normalize(s)) == normalize(s),
        tag_free(normalize(s)),
        nbsp_free(normalize(s)),
{
    lemma_pass_no_nbsp_char(s);
    lemma_settle(normalize_pass(s));
    let n = normalize(s);
    lemma_pass_fixed(n);
}

/// Settling a text free of non-breaking space characters ends on a text that
/// a pass leaves as it is.
proof fn lemma_settle(t: Seq<char>)
    requires
        no_nbsp_char(t),
    ensures
        no_nbsp_char(settle(t)),
        normalize_pass(settle(t)).len() >= settle(t).len(),
    decreases t.len(),
{
    if normalize_pass(t).len() < t.len() {
        lemma_pass_no_nbsp_char(t);
        lemma_settle(normalize_pass(t));
    }
}

} // verus!
