//! The title normalizer: a deterministic pipeline that maps a raw game title
//! to its canonical form, the identity key used by the merge engine and the
//! catalog index.
//!
//! The pipeline, in order: lowercase; strip 4-digit year annotations; strip
//! release-status suffixes; collapse possessive forms; strip punctuation
//! except hyphens; isolate digit runs as tokens; join known compound names;
//! convert Roman numerals to digits; convert spelled-out numbers to digits;
//! strip remaining punctuation; drop stop words; apply Unicode compatibility
//! decomposition and trim.

use unicode_normalization::UnicodeNormalization;
use vstd::prelude::*;

use crate::chars::{
    all_ascii, ascii_lower_seq, is_digit, is_space_char, is_word_char, exec_is_digit,
    exec_is_space_char, exec_is_word_char,
};
use crate::text::{chars_to_string, starts_with, starts_with_at, str_to_chars};

verus! {

// ---------------------------------------------------------------------------
// Leading-run helpers
// ---------------------------------------------------------------------------
/// Length of the leading run of whitespace characters.
pub open spec fn ws_run_len(s: Seq<char>) -> nat
    decreases s.len(),
{
    if s.len() == 0 || !is_space_char(s[0]) {
        0
    } else {
        1 + ws_run_len(s.skip(1))
    }
}

/// Length of the leading run of ASCII digits.
pub open spec fn digit_run_len(s: Seq<char>) -> nat
    decreases s.len(),
{
    if s.len() == 0 || !is_digit(s[0]) {
        0
    } else {
        1 + digit_run_len(s.skip(1))
    }
}

/// Length of the leading run of word characters.
pub open spec fn word_run_len(s: Seq<char>) -> nat
    decreases s.len(),
{
    if s.len() == 0 || !is_word_char(s[0]) {
        0
    } else {
        1 + word_run_len(s.skip(1))
    }
}

pub proof fn lemma_ws_run_len(s: Seq<char>, k: int)
    requires
        0 <= k <= s.len(),
        forall|j: int| 0 <= j < k ==> is_space_char(#[trigger] s[j]),
        k == s.len() || !is_space_char(s[k]),
    ensures
        ws_run_len(s) == k,
    decreases k,
{
    if k > 0 {
        lemma_ws_run_len(s.skip(1), k - 1);
    }
}

pub proof fn lemma_digit_run_len(s: Seq<char>, k: int)
    requires
        0 <= k <= s.len(),
        forall|j: int| 0 <= j < k ==> is_digit(#[trigger] s[j]),
        k == s.len() || !is_digit(s[k]),
    ensures
        digit_run_len(s) == k,
    decreases k,
{
    if k > 0 {
        lemma_digit_run_len(s.skip(1), k - 1);
    }
}

pub proof fn lemma_word_run_len(s: Seq<char>, k: int)
    requires
        0 <= k <= s.len(),
        forall|j: int| 0 <= j < k ==> is_word_char(#[trigger] s[j]),
        k == s.len() || !is_word_char(s[k]),
    ensures
        word_run_len(s) == k,
    decreases k,
{
    if k > 0 {
        lemma_word_run_len(s.skip(1), k - 1);
    }
}

/// Length of the whitespace run of `s` starting at `i`.
pub(crate) fn ws_run_at(s: &Vec<char>, i: usize) -> (n: usize)
    requires
        i <= s.len(),
    ensures
        i + n <= s.len(),
        n == ws_run_len(s@.skip(i as int)),
{
    let mut j: usize = i;
    while j < s.len() && exec_is_space_char(s[j])
        invariant
            i <= j <= s.len(),
            forall|k: int| i <= k < j ==> is_space_char(#[trigger] s@[k]),
        decreases s.len() - j,
    {
        j = j + 1;
    }
    proof {
        assert(forall|k: int| 0 <= k < j - i ==> is_space_char(#[trigger] s@.skip(i as int)[k]));
        lemma_ws_run_len(s@.skip(i as int), j - i);
    }
    j - i
}

/// Length of the digit run of `s` starting at `i`.
pub(crate) fn digit_run_at(s: &Vec<char>, i: usize) -> (n: usize)
    requires
        i <= s.len(),
    ensures
        i + n <= s.len(),
        n == digit_run_len(s@.skip(i as int)),
{
    let mut j: usize = i;
    while j < s.len() && exec_is_digit(s[j])
        invariant
            i <= j <= s.len(),
            forall|k: int| i <= k < j ==> is_digit(#[trigger] s@[k]),
        decreases s.len() - j,
    {
        j = j + 1;
    }
    proof {
        assert(forall|k: int| 0 <= k < j - i ==> is_digit(#[trigger] s@.skip(i as int)[k]));
        lemma_digit_run_len(s@.skip(i as int), j - i);
    }
    j - i
}

/// Length of the word-character run of `s` starting at `i`.
fn word_run_at(s: &Vec<char>, i: usize) -> (n: usize)
    requires
        i <= s.len(),
    ensures
        i + n <= s.len(),
        n == word_run_len(s@.skip(i as int)),
{
    let mut j: usize = i;
    while j < s.len() && exec_is_word_char(s[j])
        invariant
            i <= j <= s.len(),
            forall|k: int| i <= k < j ==> is_word_char(#[trigger] s@[k]),
        decreases s.len() - j,
    {
        j = j + 1;
    }
    proof {
        assert(forall|k: int| 0 <= k < j - i ==> is_word_char(#[trigger] s@.skip(i as int)[k]));
        lemma_word_run_len(s@.skip(i as int), j - i);
    }
    j - i
}

pub broadcast proof fn lemma_ws_run_le(s: Seq<char>)
    ensures
        #[trigger] ws_run_len(s) <= s.len(),
    decreases s.len(),
{
    if s.len() > 0 && is_space_char(s[0]) {
        lemma_ws_run_le(s.skip(1));
    }
}

pub broadcast proof fn lemma_digit_run_le(s: Seq<char>)
    ensures
        #[trigger] digit_run_len(s) <= s.len(),
    decreases s.len(),
{
    if s.len() > 0 && is_digit(s[0]) {
        lemma_digit_run_le(s.skip(1));
    }
}

pub broadcast proof fn lemma_word_run_le(s: Seq<char>)
    ensures
        #[trigger] word_run_len(s) <= s.len(),
    decreases s.len(),
{
    if s.len() > 0 && is_word_char(s[0]) {
        lemma_word_run_le(s.skip(1));
    }
}

/// Appends `s[from..to]` to `out`.
pub(crate) fn push_range(out: &mut Vec<char>, s: &Vec<char>, from: usize, to: usize)
    requires
        from <= to <= s.len(),
    ensures
        final(out)@ == old(out)@ + s@.subrange(from as int, to as int),
{
    let mut j: usize = from;
    proof {
        assert(out@ =~= old(out)@ + s@.subrange(from as int, from as int));
    }
    while j < to
        invariant
            from <= j <= to <= s.len(),
            out@ == old(out)@ + s@.subrange(from as int, j as int),
        decreases to - j,
    {
        out.push(s[j]);
        proof {
            assert(s@.subrange(from as int, j + 1) =~= s@.subrange(from as int, j as int) + seq![
                s@[j as int],
            ]);
            assert(out@ =~= old(out)@ + s@.subrange(from as int, j + 1));
        }
        j = j + 1;
    }
    proof {
        assert(out@ =~= old(out)@ + s@.subrange(from as int, to as int));
    }
}

// ---------------------------------------------------------------------------
// Punctuation stripping
// ---------------------------------------------------------------------------
/// Keep word characters, whitespace, and hyphens; drop everything else.
pub open spec fn strip_punct_keep_hyphen(s: Seq<char>) -> Seq<char>
    decreases s.len(),
{
    if s.len() == 0 {
        s
    } else if is_word_char(s[0]) || is_space_char(s[0]) || s[0] == '-' {
        seq![s[0]] + strip_punct_keep_hyphen(s.skip(1))
    } else {
        strip_punct_keep_hyphen(s.skip(1))
    }
}

/// Keep word characters and whitespace; drop everything else.
pub open spec fn strip_punct(s: Seq<char>) -> Seq<char>
    decreases s.len(),
{
    if s.len() == 0 {
        s
    } else if is_word_char(s[0]) || is_space_char(s[0]) {
        seq![s[0]] + strip_punct(s.skip(1))
    } else {
        strip_punct(s.skip(1))
    }
}

pub fn exec_strip_punct_keep_hyphen(s: &Vec<char>) -> (r: Vec<char>)
    ensures
        r@ == strip_punct_keep_hyphen(s@),
{
    let mut out: Vec<char> = Vec::new();
    let mut i: usize = 0;
    proof {
        assert(s@.skip(0) =~= s@);
        assert(Seq::<char>::empty() + strip_punct_keep_hyphen(s@) =~= strip_punct_keep_hyphen(s@));
    }
    while i < s.len()
        invariant
            0 <= i <= s.len(),
            strip_punct_keep_hyphen(s@) == out@ + strip_punct_keep_hyphen(s@.skip(i as int)),
        decreases s.len() - i,
    {
        let c = s[i];
        proof {
            assert(s@.skip(i as int)[0] == c);
            assert(s@.skip(i as int).skip(1) =~= s@.skip(i + 1));
        }
        if exec_is_word_char(c) || exec_is_space_char(c) || c == '-' {
            out.push(c);
            proof {
                assert(out@ + strip_punct_keep_hyphen(s@.skip(i + 1)) =~= out@.drop_last() + (
                seq![c] + strip_punct_keep_hyphen(s@.skip(i + 1))));
            }
        }
        i = i + 1;
    }
    proof {
        assert(strip_punct_keep_hyphen(s@.skip(i as int)) =~= Seq::<char>::empty());
        assert(out@ + Seq::<char>::empty() =~= out@);
    }
    out
}

pub fn exec_strip_punct(s: &Vec<char>) -> (r: Vec<char>)
    ensures
        r@ == strip_punct(s@),
{
    let mut out: Vec<char> = Vec::new();
    let mut i: usize = 0;
    proof {
        assert(s@.skip(0) =~= s@);
        assert(Seq::<char>::empty() + strip_punct(s@) =~= strip_punct(s@));
    }
    while i < s.len()
        invariant
            0 <= i <= s.len(),
            strip_punct(s@) == out@ + strip_punct(s@.skip(i as int)),
        decreases s.len() - i,
    {
        let c = s[i];
        proof {
            assert(s@.skip(i as int)[0] == c);
            assert(s@.skip(i as int).skip(1) =~= s@.skip(i + 1));
        }
        if exec_is_word_char(c) || exec_is_space_char(c) {
            out.push(c);
            proof {
                assert(out@ + strip_punct(s@.skip(i + 1)) =~= out@.drop_last() + (seq![c]
                    + strip_punct(s@.skip(i + 1))));
            }
        }
        i = i + 1;
    }
    proof {
        assert(strip_punct(s@.skip(i as int)) =~= Seq::<char>::empty());
        assert(out@ + Seq::<char>::empty() =~= out@);
    }
    out
}


// ---------------------------------------------------------------------------
// Year annotations
// ---------------------------------------------------------------------------
/// Length of a year annotation at the front of `s`, if one is there: an
/// optional whitespace run, an optional opening parenthesis, exactly four
/// digits, and the matching closing parenthesis if one was opened; without
/// parentheses the digits must not be followed by a word character.
pub open spec fn year_front_len(s: Seq<char>) -> Option<int> {
    let w = ws_run_len(s) as int;
    let p: int = if w < s.len() && s[w] == '(' {
        1
    } else {
        0
    };
    let j = w + p;
    if j + 4 <= s.len() && is_digit(s[j]) && is_digit(s[j + 1]) && is_digit(s[j + 2]) && is_digit(
        s[j + 3],
    ) {
        if p == 1 && j + 4 < s.len() && s[j + 4] == ')' {
            Some(j + 5)
        } else if j + 4 == s.len() || !is_word_char(s[j + 4]) {
            Some(j + 4)
        } else {
            None
        }
    } else {
        None
    }
}

/// Removes every year annotation, scanning left to right.
pub open spec fn strip_years(s: Seq<char>) -> Seq<char>
    decreases s.len(),
{
    if s.len() == 0 {
        s
    } else {
        match year_front_len(s) {
            Some(n) => strip_years(s.skip(n)),
            None => seq![s[0]] + strip_years(s.skip(1)),
        }
    }
}

/// The year annotation length at position `i` of `s`, executable.
fn year_len_at(s: &Vec<char>, i: usize) -> (r: Option<usize>)
    requires
        i <= s.len(),
    ensures
        match r {
            Some(n) => year_front_len(s@.skip(i as int)) == Some(n as int) && i + n <= s.len()
                && n >= 1,
            None => year_front_len(s@.skip(i as int)) is None,
        },
{
    let ghost suf = s@.skip(i as int);
    let w = ws_run_at(s, i);
    let p: usize = if i + w < s.len() && s[i + w] == '(' {
        1
    } else {
        0
    };
    let j = i + w + p;
    proof {
        if i + w < s.len() {
            assert(suf[w as int] == s@[i + w]);
        }
        if j < s.len() {
            assert(suf[(w + p) as int] == s@[j as int]);
        }
    }
    let len = s.len();
    if len >= 4 && j <= len - 4 && exec_is_digit(s[j]) && exec_is_digit(s[j + 1]) && exec_is_digit(
        s[j + 2],
    ) && exec_is_digit(s[j + 3]) {
        proof {
            assert(forall|k: int| 0 <= k < suf.len() ==> suf[k] == s@[i + k]);
        }
        if p == 1 && j + 4 < len && s[j + 4] == ')' {
            Some(w + p + 5)
        } else if j + 4 == len || !exec_is_word_char(s[j + 4]) {
            Some(w + p + 4)
        } else {
            None
        }
    } else {
        None
    }
}

pub fn exec_strip_years(s: &Vec<char>) -> (r: Vec<char>)
    ensures
        r@ == strip_years(s@),
{
    let mut out: Vec<char> = Vec::new();
    let mut i: usize = 0;
    proof {
        assert(s@.skip(0) =~= s@);
        assert(Seq::<char>::empty() + strip_years(s@) =~= strip_years(s@));
    }
    while i < s.len()
        invariant
            0 <= i <= s.len(),
            strip_years(s@) == out@ + strip_years(s@.skip(i as int)),
        decreases s.len() - i,
    {
        let ghost suf = s@.skip(i as int);
        match year_len_at(s, i) {
            Some(n) => {
                proof {
                    assert(suf.skip(n as int) =~= s@.skip(i + n));
                }
                i = i + n;
            },
            None => {
                proof {
                    assert(suf[0] == s@[i as int]);
                    assert(suf.skip(1) =~= s@.skip(i + 1));
                }
                out.push(s[i]);
                proof {
                    assert(out@ + strip_years(s@.skip(i + 1)) =~= out@.drop_last() + (seq![
                        s@[i as int],
                    ] + strip_years(s@.skip(i + 1))));
                }
                i = i + 1;
            },
        }
    }
    proof {
        assert(strip_years(s@.skip(i as int)) =~= Seq::<char>::empty());
        assert(out@ + Seq::<char>::empty() =~= out@);
    }
    out
}

// ---------------------------------------------------------------------------
// Literal removal and replacement
// ---------------------------------------------------------------------------
/// Removes every occurrence of an optional whitespace run followed by the
/// literal `lit`, scanning left to right.
pub open spec fn strip_ws_lit(s: Seq<char>, lit: Seq<char>) -> Seq<char>
    decreases s.len(),
    via strip_ws_lit_decreases
{
    if s.len() == 0 || lit.len() == 0 {
        s
    } else {
        let w = ws_run_len(s) as int;
        if starts_with(s.skip(w), lit) {
            strip_ws_lit(s.skip(w + lit.len() as int), lit)
        } else {
            seq![s[0]] + strip_ws_lit(s.skip(1), lit)
        }
    }
}

#[via_fn]
proof fn strip_ws_lit_decreases(s: Seq<char>, lit: Seq<char>) {
    lemma_ws_run_le(s);
}

pub fn exec_strip_ws_lit(s: &Vec<char>, lit: &Vec<char>) -> (r: Vec<char>)
    requires
        lit.len() >= 1,
    ensures
        r@ == strip_ws_lit(s@, lit@),
{
    let mut out: Vec<char> = Vec::new();
    let mut i: usize = 0;
    proof {
        assert(s@.skip(0) =~= s@);
        assert(Seq::<char>::empty() + strip_ws_lit(s@, lit@) =~= strip_ws_lit(s@, lit@));
    }
    while i < s.len()
        invariant
            0 <= i <= s.len(),
            lit@.len() >= 1,
            strip_ws_lit(s@, lit@) == out@ + strip_ws_lit(s@.skip(i as int), lit@),
        decreases s.len() - i,
    {
        let ghost suf = s@.skip(i as int);
        let w = ws_run_at(s, i);
        proof {
            assert(suf.skip(w as int) =~= s@.skip(i + w));
        }
        if starts_with_at(s, lit, i + w) {
            proof {
                assert(suf.skip(w + lit@.len() as int) =~= s@.skip(i + w + lit@.len() as int));
            }
            i = i + w + lit.len();
        } else {
            proof {
                assert(suf[0] == s@[i as int]);
                assert(suf.skip(1) =~= s@.skip(i + 1));
            }
            out.push(s[i]);
            proof {
                assert(out@ + strip_ws_lit(s@.skip(i + 1), lit@) =~= out@.drop_last() + (seq![
                    s@[i as int],
                ] + strip_ws_lit(s@.skip(i + 1), lit@)));
            }
            i = i + 1;
        }
    }
    proof {
        assert(strip_ws_lit(s@.skip(i as int), lit@) =~= Seq::<char>::empty());
        assert(out@ + Seq::<char>::empty() =~= out@);
    }
    out
}

/// Replaces every occurrence of `pat` by `rep`, scanning left to right
/// without rescanning replacements.
pub open spec fn replace_lit(s: Seq<char>, pat: Seq<char>, rep: Seq<char>) -> Seq<char>
    decreases s.len(),
{
    if s.len() == 0 || pat.len() == 0 {
        s
    } else if starts_with(s, pat) {
        rep + replace_lit(s.skip(pat.len() as int), pat, rep)
    } else {
        seq![s[0]] + replace_lit(s.skip(1), pat, rep)
    }
}

pub fn exec_replace_lit(s: &Vec<char>, pat: &Vec<char>, rep: &Vec<char>) -> (r: Vec<char>)
    requires
        pat.len() >= 1,
    ensures
        r@ == replace_lit(s@, pat@, rep@),
{
    let mut out: Vec<char> = Vec::new();
    let mut i: usize = 0;
    proof {
        assert(s@.skip(0) =~= s@);
        assert(Seq::<char>::empty() + replace_lit(s@, pat@, rep@) =~= replace_lit(s@, pat@, rep@));
    }
    while i < s.len()
        invariant
            0 <= i <= s.len(),
            pat@.len() >= 1,
            replace_lit(s@, pat@, rep@) == out@ + replace_lit(s@.skip(i as int), pat@, rep@),
        decreases s.len() - i,
    {
        let ghost suf = s@.skip(i as int);
        if starts_with_at(s, pat, i) {
            proof {
                assert(suf.skip(pat@.len() as int) =~= s@.skip(i + pat@.len() as int));
            }
            let ghost out0 = out@;
            push_range(&mut out, rep, 0, rep.len());
            proof {
                assert(rep@.subrange(0, rep@.len() as int) =~= rep@);
                assert(out@ + replace_lit(s@.skip(i + pat@.len() as int), pat@, rep@) =~= out0 + (
                rep@ + replace_lit(s@.skip(i + pat@.len() as int), pat@, rep@)));
            }
            i = i + pat.len();
        } else {
            proof {
                assert(suf[0] == s@[i as int]);
                assert(suf.skip(1) =~= s@.skip(i + 1));
            }
            out.push(s[i]);
            proof {
                assert(out@ + replace_lit(s@.skip(i + 1), pat@, rep@) =~= out@.drop_last() + (seq![
                    s@[i as int],
                ] + replace_lit(s@.skip(i + 1), pat@, rep@)));
            }
            i = i + 1;
        }
    }
    proof {
        assert(replace_lit(s@.skip(i as int), pat@, rep@) =~= Seq::<char>::empty());
        assert(out@ + Seq::<char>::empty() =~= out@);
    }
    out
}

// ---------------------------------------------------------------------------
// Possessive forms
// ---------------------------------------------------------------------------
/// Length of a possessive form at the front of `s`: an apostrophe, optional
/// whitespace and an `s`, or whitespace and a standalone `s`; either way the
/// `s` must end a word.  The whole match collapses to a single attached `s`.
pub open spec fn poss_front_len(s: Seq<char>) -> Option<int> {
    if s.len() > 0 && s[0] == '\'' {
        let w = ws_run_len(s.skip(1)) as int;
        let p = 1 + w;
        if p < s.len() && s[p] == 's' && (p + 1 == s.len() || !is_word_char(s[p + 1])) {
            Some(p + 1)
        } else {
            None
        }
    } else {
        let w = ws_run_len(s) as int;
        if w >= 1 && w < s.len() && s[w] == 's' && (w + 1 == s.len() || !is_word_char(
            s[w + 1],
        )) {
            Some(w + 1)
        } else {
            None
        }
    }
}

/// Collapses possessive forms to an attached `s`, scanning left to right.
pub open spec fn collapse_possessive(s: Seq<char>) -> Seq<char>
    decreases s.len(),
{
    if s.len() == 0 {
        s
    } else {
        match poss_front_len(s) {
            Some(n) => seq!['s'] + collapse_possessive(s.skip(n)),
            None => seq![s[0]] + collapse_possessive(s.skip(1)),
        }
    }
}

/// The possessive-form length at position `i` of `s`, executable.
fn poss_len_at(s: &Vec<char>, i: usize) -> (r: Option<usize>)
    requires
        i < s.len(),
    ensures
        match r {
            Some(n) => poss_front_len(s@.skip(i as int)) == Some(n as int) && i + n <= s.len()
                && n >= 1,
            None => poss_front_len(s@.skip(i as int)) is None,
        },
{
    let ghost suf = s@.skip(i as int);
    if s[i] == '\'' {
        proof {
            assert(suf.skip(1) =~= s@.skip(i + 1));
        }
        let w = ws_run_at(s, i + 1);
        let p = i + 1 + w;
        if p < s.len() && s[p] == 's' && (p + 1 == s.len() || !exec_is_word_char(s[p + 1])) {
            Some(1 + w + 1)
        } else {
            None
        }
    } else {
        let w = ws_run_at(s, i);
        if w >= 1 && i + w < s.len() && s[i + w] == 's' && (i + w + 1 == s.len()
            || !exec_is_word_char(s[i + w + 1])) {
            Some(w + 1)
        } else {
            None
        }
    }
}

pub fn exec_collapse_possessive(s: &Vec<char>) -> (r: Vec<char>)
    ensures
        r@ == collapse_possessive(s@),
{
    let mut out: Vec<char> = Vec::new();
    let mut i: usize = 0;
    proof {
        assert(s@.skip(0) =~= s@);
        assert(Seq::<char>::empty() + collapse_possessive(s@) =~= collapse_possessive(s@));
    }
    while i < s.len()
        invariant
            0 <= i <= s.len(),
            collapse_possessive(s@) == out@ + collapse_possessive(s@.skip(i as int)),
        decreases s.len() - i,
    {
        let ghost suf = s@.skip(i as int);
        match poss_len_at(s, i) {
            Some(n) => {
                proof {
                    assert(suf.skip(n as int) =~= s@.skip(i + n));
                }
                out.push('s');
                proof {
                    assert(out@ + collapse_possessive(s@.skip(i + n)) =~= out@.drop_last() + (seq![
                        's',
                    ] + collapse_possessive(s@.skip(i + n))));
                }
                i = i + n;
            },
            None => {
                proof {
                    assert(suf[0] == s@[i as int]);
                    assert(suf.skip(1) =~= s@.skip(i + 1));
                }
                out.push(s[i]);
                proof {
                    assert(out@ + collapse_possessive(s@.skip(i + 1)) =~= out@.drop_last() + (seq![
                        s@[i as int],
                    ] + collapse_possessive(s@.skip(i + 1))));
                }
                i = i + 1;
            },
        }
    }
    proof {
        assert(collapse_possessive(s@.skip(i as int)) =~= Seq::<char>::empty());
        assert(out@ + Seq::<char>::empty() =~= out@);
    }
    out
}

// ---------------------------------------------------------------------------
// Digit spacing
// ---------------------------------------------------------------------------
/// Inserts a space before and after every maximal run of digits.
pub open spec fn space_digits(s: Seq<char>) -> Seq<char>
    decreases s.len(),
    via space_digits_decreases
{
    if s.len() == 0 {
        s
    } else if is_digit(s[0]) {
        let d = digit_run_len(s) as int;
        seq![' '] + s.take(d) + seq![' '] + space_digits(s.skip(d))
    } else {
        seq![s[0]] + space_digits(s.skip(1))
    }
}

#[via_fn]
proof fn space_digits_decreases(s: Seq<char>) {
    lemma_digit_run_le(s);
}

pub fn exec_space_digits(s: &Vec<char>) -> (r: Vec<char>)
    ensures
        r@ == space_digits(s@),
{
    let mut out: Vec<char> = Vec::new();
    let mut i: usize = 0;
    proof {
        assert(s@.skip(0) =~= s@);
        assert(Seq::<char>::empty() + space_digits(s@) =~= space_digits(s@));
    }
    while i < s.len()
        invariant
            0 <= i <= s.len(),
            space_digits(s@) == out@ + space_digits(s@.skip(i as int)),
        decreases s.len() - i,
    {
        let ghost suf = s@.skip(i as int);
        proof {
            assert(suf[0] == s@[i as int]);
        }
        if exec_is_digit(s[i]) {
            let d = digit_run_at(s, i);
            proof {
                assert(suf.skip(d as int) =~= s@.skip(i + d));
                assert(suf.take(d as int) =~= s@.subrange(i as int, i + d));
            }
            let ghost out0 = out@;
            out.push(' ');
            push_range(&mut out, s, i, i + d);
            out.push(' ');
            proof {
                assert(out@ =~= out0 + seq![' '] + s@.subrange(i as int, i + d) + seq![' ']);
                assert(out@ + space_digits(s@.skip(i + d)) =~= out0 + (seq![' '] + suf.take(
                    d as int,
                ) + seq![' '] + space_digits(s@.skip(i + d))));
            }
            i = i + d;
        } else {
            proof {
                assert(suf.skip(1) =~= s@.skip(i + 1));
            }
            out.push(s[i]);
            proof {
                assert(out@ + space_digits(s@.skip(i + 1)) =~= out@.drop_last() + (seq![
                    s@[i as int],
                ] + space_digits(s@.skip(i + 1))));
            }
            i = i + 1;
        }
    }
    proof {
        assert(space_digits(s@.skip(i as int)) =~= Seq::<char>::empty());
        assert(out@ + Seq::<char>::empty() =~= out@);
    }
    out
}


// ---------------------------------------------------------------------------
// Compound-name fixups
// ---------------------------------------------------------------------------
/// Length of a compound-name occurrence at the front of `s`: the word `a`,
/// one whitespace character or hyphen, and the word `b`, ending at a word
/// boundary.  (The left boundary is the caller's `prev_word` flag.)
pub open spec fn compound_front_len(s: Seq<char>, a: Seq<char>, b: Seq<char>) -> Option<int> {
    let m = a.len() + 1 + b.len() as int;
    if a.len() >= 1 && b.len() >= 1 && starts_with(s, a) && a.len() + 1 <= s.len() && (
    is_space_char(s[a.len() as int]) || s[a.len() as int] == '-') && starts_with(
        s.skip(a.len() + 1 as int),
        b,
    ) && (m == s.len() || !is_word_char(s[m])) {
        Some(m)
    } else {
        None
    }
}

/// Joins `a` and `b` into one word wherever they stand as a whole word
/// separated by a single space or hyphen, scanning left to right.
pub open spec fn join_compound_rec(
    s: Seq<char>,
    a: Seq<char>,
    b: Seq<char>,
    prev_word: bool,
) -> Seq<char>
    decreases s.len(),
{
    if s.len() == 0 {
        s
    } else {
        match (if prev_word {
            None
        } else {
            compound_front_len(s, a, b)
        }) {
            Some(m) => a + b + join_compound_rec(s.skip(m), a, b, is_word_char(s[m - 1])),
            None => seq![s[0]] + join_compound_rec(s.skip(1), a, b, is_word_char(s[0])),
        }
    }
}

pub open spec fn join_compound(s: Seq<char>, a: Seq<char>, b: Seq<char>) -> Seq<char> {
    join_compound_rec(s, a, b, false)
}

pub fn exec_join_compound(s: &Vec<char>, a: &Vec<char>, b: &Vec<char>) -> (r: Vec<char>)
    requires
        a.len() >= 1,
        b.len() >= 1,
    ensures
        r@ == join_compound(s@, a@, b@),
{
    let mut out: Vec<char> = Vec::new();
    let mut i: usize = 0;
    let mut prevw: bool = false;
    proof {
        assert(s@.skip(0) =~= s@);
        assert(Seq::<char>::empty() + join_compound(s@, a@, b@) =~= join_compound(s@, a@, b@));
    }
    while i < s.len()
        invariant
            0 <= i <= s.len(),
            a@.len() >= 1,
            b@.len() >= 1,
            join_compound(s@, a@, b@) == out@ + join_compound_rec(
                s@.skip(i as int),
                a@,
                b@,
                prevw,
            ),
        decreases s.len() - i,
    {
        let ghost suf = s@.skip(i as int);
        let mut is_match: bool = false;
        if !prevw && starts_with_at(s, a, i) && i + a.len() < s.len() {
            let sep = s[i + a.len()];
            proof {
                assert(suf[a@.len() as int] == s@[i + a@.len()]);
                assert(suf.skip(a@.len() + 1 as int) =~= s@.skip(i + a@.len() + 1));
            }
            if (exec_is_space_char(sep) || sep == '-') && starts_with_at(s, b, i + a.len() + 1) {
                let im = i + a.len() + 1 + b.len();
                proof {
                    assert(im - i == a@.len() + 1 + b@.len());
                    if im < s.len() {
                        assert(suf[im - i] == s@[im as int]);
                    }
                }
                is_match = im == s.len() || !exec_is_word_char(s[im]);
            }
        }
        proof {
            if !prevw {
                if is_match {
                    assert(compound_front_len(suf, a@, b@) == Some(a@.len() + 1 + b@.len() as int));
                } else {
                    assert(compound_front_len(suf, a@, b@) is None);
                }
            }
        }
        if is_match {
            proof {
                assert(a@.len() + 1 + b@.len() <= suf.len());
            }
            let m = a.len() + 1 + b.len();
            let ghost out0 = out@;
            push_range(&mut out, a, 0, a.len());
            push_range(&mut out, b, 0, b.len());
            proof {
                assert(a@.subrange(0, a@.len() as int) =~= a@);
                assert(b@.subrange(0, b@.len() as int) =~= b@);
                assert(suf.skip(m as int) =~= s@.skip(i + m));
                assert(suf[m - 1] == s@[i + m - 1]);
                assert(out@ + join_compound_rec(s@.skip(i + m), a@, b@, is_word_char(
                    s@[i + m - 1],
                )) =~= out0 + (a@ + b@ + join_compound_rec(s@.skip(i + m), a@, b@, is_word_char(
                    s@[i + m - 1],
                ))));
            }
            i = i + m;
            prevw = exec_is_word_char(s[i - 1]);
        } else {
            proof {
                assert(suf[0] == s@[i as int]);
                assert(suf.skip(1) =~= s@.skip(i + 1));
            }
            out.push(s[i]);
            proof {
                assert(out@ + join_compound_rec(s@.skip(i + 1), a@, b@, is_word_char(s@[i as int]))
                    =~= out@.drop_last() + (seq![s@[i as int]] + join_compound_rec(
                    s@.skip(i + 1),
                    a@,
                    b@,
                    is_word_char(s@[i as int]),
                )));
            }
            prevw = exec_is_word_char(s[i]);
            i = i + 1;
        }
    }
    proof {
        assert(join_compound_rec(s@.skip(i as int), a@, b@, prevw) =~= Seq::<char>::empty());
        assert(out@ + Seq::<char>::empty() =~= out@);
    }
    out
}

// ---------------------------------------------------------------------------
// Roman numerals
// ---------------------------------------------------------------------------
/// The Arabic digits for a whole-word Roman numeral from I to XXV (already
/// lowercased), if the token is one.
pub open spec fn roman_digits(t: Seq<char>) -> Option<Seq<char>> {
    if t == seq!['x', 'x', 'v'] {
        Some(seq!['2', '5'])
    } else if t == seq!['x', 'x', 'i', 'v'] {
        Some(seq!['2', '4'])
    } else if t == seq!['x', 'x', 'i', 'i', 'i'] {
        Some(seq!['2', '3'])
    } else if t == seq!['x', 'x', 'i', 'i'] {
        Some(seq!['2', '2'])
    } else if t == seq!['x', 'x', 'i'] {
        Some(seq!['2', '1'])
    } else if t == seq!['x', 'x'] {
        Some(seq!['2', '0'])
    } else if t == seq!['x', 'i', 'x'] {
        Some(seq!['1', '9'])
    } else if t == seq!['x', 'v', 'i', 'i', 'i'] {
        Some(seq!['1', '8'])
    } else if t == seq!['x', 'v', 'i', 'i'] {
        Some(seq!['1', '7'])
    } else if t == seq!['x', 'v', 'i'] {
        Some(seq!['1', '6'])
    } else if t == seq!['x', 'v'] {
        Some(seq!['1', '5'])
    } else if t == seq!['x', 'i', 'v'] {
        Some(seq!['1', '4'])
    } else if t == seq!['x', 'i', 'i', 'i'] {
        Some(seq!['1', '3'])
    } else if t == seq!['x', 'i', 'i'] {
        Some(seq!['1', '2'])
    } else if t == seq!['x', 'i'] {
        Some(seq!['1', '1'])
    } else if t == seq!['x'] {
        Some(seq!['1', '0'])
    } else if t == seq!['i', 'x'] {
        Some(seq!['9'])
    } else if t == seq!['v', 'i', 'i', 'i'] {
        Some(seq!['8'])
    } else if t == seq!['v', 'i', 'i'] {
        Some(seq!['7'])
    } else if t == seq!['v', 'i'] {
        Some(seq!['6'])
    } else if t == seq!['v'] {
        Some(seq!['5'])
    } else if t == seq!['i', 'v'] {
        Some(seq!['4'])
    } else if t == seq!['i', 'i', 'i'] {
        Some(seq!['3'])
    } else if t == seq!['i', 'i'] {
        Some(seq!['2'])
    } else if t == seq!['i'] {
        Some(seq!['1'])
    } else {
        None
    }
}

fn map_roman_token(t: &Vec<char>) -> (r: Option<Vec<char>>)
    ensures
        match r {
            Some(d) => roman_digits(t@) == Some(d@),
            None => roman_digits(t@) is None,
        },
{
    let v = vec!['x', 'x', 'v'];
    proof {
        assert(v@ =~= seq!['x', 'x', 'v']);
    }
    if crate::text::vec_char_eq(t, &v) {
        let d = vec!['2', '5'];
        proof {
            assert(d@ =~= seq!['2', '5']);
        }
        return Some(d);
    }
    let v = vec!['x', 'x', 'i', 'v'];
    proof {
        assert(v@ =~= seq!['x', 'x', 'i', 'v']);
    }
    if crate::text::vec_char_eq(t, &v) {
        let d = vec!['2', '4'];
        proof {
            assert(d@ =~= seq!['2', '4']);
        }
        return Some(d);
    }
    let v = vec!['x', 'x', 'i', 'i', 'i'];
    proof {
        assert(v@ =~= seq!['x', 'x', 'i', 'i', 'i']);
    }
    if crate::text::vec_char_eq(t, &v) {
        let d = vec!['2', '3'];
        proof {
            assert(d@ =~= seq!['2', '3']);
        }
        return Some(d);
    }
    let v = vec!['x', 'x', 'i', 'i'];
    proof {
        assert(v@ =~= seq!['x', 'x', 'i', 'i']);
    }
    if crate::text::vec_char_eq(t, &v) {
        let d = vec!['2', '2'];
        proof {
            assert(d@ =~= seq!['2', '2']);
        }
        return Some(d);
    }
    let v = vec!['x', 'x', 'i'];
    proof {
        assert(v@ =~= seq!['x', 'x', 'i']);
    }
    if crate::text::vec_char_eq(t, &v) {
        let d = vec!['2', '1'];
        proof {
            assert(d@ =~= seq!['2', '1']);
        }
        return Some(d);
    }
    let v = vec!['x', 'x'];
    proof {
        assert(v@ =~= seq!['x', 'x']);
    }
    if crate::text::vec_char_eq(t, &v) {
        let d = vec!['2', '0'];
        proof {
            assert(d@ =~= seq!['2', '0']);
        }
        return Some(d);
    }
    let v = vec!['x', 'i', 'x'];
    proof {
        assert(v@ =~= seq!['x', 'i', 'x']);
    }
    if crate::text::vec_char_eq(t, &v) {
        let d = vec!['1', '9'];
        proof {
            assert(d@ =~= seq!['1', '9']);
        }
        return Some(d);
    }
    let v = vec!['x', 'v', 'i', 'i', 'i'];
    proof {
        assert(v@ =~= seq!['x', 'v', 'i', 'i', 'i']);
    }
    if crate::text::vec_char_eq(t, &v) {
        let d = vec!['1', '8'];
        proof {
            assert(d@ =~= seq!['1', '8']);
        }
        return Some(d);
    }
    let v = vec!['x', 'v', 'i', 'i'];
    proof {
        assert(v@ =~= seq!['x', 'v', 'i', 'i']);
    }
    if crate::text::vec_char_eq(t, &v) {
        let d = vec!['1', '7'];
        proof {
            assert(d@ =~= seq!['1', '7']);
        }
        return Some(d);
    }
    let v = vec!['x', 'v', 'i'];
    proof {
        assert(v@ =~= seq!['x', 'v', 'i']);
    }
    if crate::text::vec_char_eq(t, &v) {
        let d = vec!['1', '6'];
        proof {
            assert(d@ =~= seq!['1', '6']);
        }
        return Some(d);
    }
    let v = vec!['x', 'v'];
    proof {
        assert(v@ =~= seq!['x', 'v']);
    }
    if crate::text::vec_char_eq(t, &v) {
        let d = vec!['1', '5'];
        proof {
            assert(d@ =~= seq!['1', '5']);
        }
        return Some(d);
    }
    let v = vec!['x', 'i', 'v'];
    proof {
        assert(v@ =~= seq!['x', 'i', 'v']);
    }
    if crate::text::vec_char_eq(t, &v) {
        let d = vec!['1', '4'];
        proof {
            assert(d@ =~= seq!['1', '4']);
        }
        return Some(d);
    }
    let v = vec!['x', 'i', 'i', 'i'];
    proof {
        assert(v@ =~= seq!['x', 'i', 'i', 'i']);
    }
    if crate::text::vec_char_eq(t, &v) {
        let d = vec!['1', '3'];
        proof {
            assert(d@ =~= seq!['1', '3']);
        }
        return Some(d);
    }
    let v = vec!['x', 'i', 'i'];
    proof {
        assert(v@ =~= seq!['x', 'i', 'i']);
    }
    if crate::text::vec_char_eq(t, &v) {
        let d = vec!['1', '2'];
        proof {
            assert(d@ =~= seq!['1', '2']);
        }
        return Some(d);
    }
    let v = vec!['x', 'i'];
    proof {
        assert(v@ =~= seq!['x', 'i']);
    }
    if crate::text::vec_char_eq(t, &v) {
        let d = vec!['1', '1'];
        proof {
            assert(d@ =~= seq!['1', '1']);
        }
        return Some(d);
    }
    let v = vec!['x'];
    proof {
        assert(v@ =~= seq!['x']);
    }
    if crate::text::vec_char_eq(t, &v) {
        let d = vec!['1', '0'];
        proof {
            assert(d@ =~= seq!['1', '0']);
        }
        return Some(d);
    }
    let v = vec!['i', 'x'];
    proof {
        assert(v@ =~= seq!['i', 'x']);
    }
    if crate::text::vec_char_eq(t, &v) {
        let d = vec!['9'];
        proof {
            assert(d@ =~= seq!['9']);
        }
        return Some(d);
    }
    let v = vec!['v', 'i', 'i', 'i'];
    proof {
        assert(v@ =~= seq!['v', 'i', 'i', 'i']);
    }
    if crate::text::vec_char_eq(t, &v) {
        let d = vec!['8'];
        proof {
            assert(d@ =~= seq!['8']);
        }
        return Some(d);
    }
    let v = vec!['v', 'i', 'i'];
    proof {
        assert(v@ =~= seq!['v', 'i', 'i']);
    }
    if crate::text::vec_char_eq(t, &v) {
        let d = vec!['7'];
        proof {
            assert(d@ =~= seq!['7']);
        }
        return Some(d);
    }
    let v = vec!['v', 'i'];
    proof {
        assert(v@ =~= seq!['v', 'i']);
    }
    if crate::text::vec_char_eq(t, &v) {
        let d = vec!['6'];
        proof {
            assert(d@ =~= seq!['6']);
        }
        return Some(d);
    }
    let v = vec!['v'];
    proof {
        assert(v@ =~= seq!['v']);
    }
    if crate::text::vec_char_eq(t, &v) {
        let d = vec!['5'];
        proof {
            assert(d@ =~= seq!['5']);
        }
        return Some(d);
    }
    let v = vec!['i', 'v'];
    proof {
        assert(v@ =~= seq!['i', 'v']);
    }
    if crate::text::vec_char_eq(t, &v) {
        let d = vec!['4'];
        proof {
            assert(d@ =~= seq!['4']);
        }
        return Some(d);
    }
    let v = vec!['i', 'i', 'i'];
    proof {
        assert(v@ =~= seq!['i', 'i', 'i']);
    }
    if crate::text::vec_char_eq(t, &v) {
        let d = vec!['3'];
        proof {
            assert(d@ =~= seq!['3']);
        }
        return Some(d);
    }
    let v = vec!['i', 'i'];
    proof {
        assert(v@ =~= seq!['i', 'i']);
    }
    if crate::text::vec_char_eq(t, &v) {
        let d = vec!['2'];
        proof {
            assert(d@ =~= seq!['2']);
        }
        return Some(d);
    }
    let v = vec!['i'];
    proof {
        assert(v@ =~= seq!['i']);
    }
    if crate::text::vec_char_eq(t, &v) {
        let d = vec!['1'];
        proof {
            assert(d@ =~= seq!['1']);
        }
        return Some(d);
    }
    None
}

/// Copies `s[from..to]` into a fresh vector.
pub(crate) fn copy_range(s: &Vec<char>, from: usize, to: usize) -> (r: Vec<char>)
    requires
        from <= to <= s.len(),
    ensures
        r@ == s@.subrange(from as int, to as int),
{
    let mut out: Vec<char> = Vec::new();
    push_range(&mut out, s, from, to);
    proof {
        assert(out@ =~= s@.subrange(from as int, to as int));
    }
    out
}

/// Replaces every maximal word-character run that is a Roman numeral by its
/// Arabic digits.
pub open spec fn convert_roman_tokens(s: Seq<char>) -> Seq<char>
    decreases s.len(),
    via convert_roman_tokens_decreases
{
    if s.len() == 0 {
        s
    } else if is_word_char(s[0]) {
        let w = word_run_len(s) as int;
        let tok = s.take(w);
        (match roman_digits(tok) {
            Some(d) => d,
            None => tok,
        }) + convert_roman_tokens(s.skip(w))
    } else {
        seq![s[0]] + convert_roman_tokens(s.skip(1))
    }
}

#[via_fn]
proof fn convert_roman_tokens_decreases(s: Seq<char>) {
    lemma_word_run_le(s);
}

pub fn exec_convert_roman_tokens(s: &Vec<char>) -> (r: Vec<char>)
    ensures
        r@ == convert_roman_tokens(s@),
{
    let mut out: Vec<char> = Vec::new();
    let mut i: usize = 0;
    proof {
        assert(s@.skip(0) =~= s@);
        assert(Seq::<char>::empty() + convert_roman_tokens(s@) =~= convert_roman_tokens(s@));
    }
    while i < s.len()
        invariant
            0 <= i <= s.len(),
            convert_roman_tokens(s@) == out@ + convert_roman_tokens(s@.skip(i as int)),
        decreases s.len() - i,
    {
        let ghost suf = s@.skip(i as int);
        proof {
            assert(suf[0] == s@[i as int]);
        }
        if exec_is_word_char(s[i]) {
            let w = word_run_at(s, i);
            let tok = copy_range(s, i, i + w);
            proof {
                assert(suf.take(w as int) =~= s@.subrange(i as int, i + w));
                assert(suf.skip(w as int) =~= s@.skip(i + w));
            }
            let ghost out0 = out@;
            match map_roman_token(&tok) {
                Some(d) => {
                    push_range(&mut out, &d, 0, d.len());
                    proof {
                        assert(d@.subrange(0, d@.len() as int) =~= d@);
                        assert(out@ + convert_roman_tokens(s@.skip(i + w)) =~= out0 + (d@
                            + convert_roman_tokens(s@.skip(i + w))));
                    }
                },
                None => {
                    push_range(&mut out, &tok, 0, tok.len());
                    proof {
                        assert(tok@.subrange(0, tok@.len() as int) =~= tok@);
                        assert(out@ + convert_roman_tokens(s@.skip(i + w)) =~= out0 + (tok@
                            + convert_roman_tokens(s@.skip(i + w))));
                    }
                },
            }
            i = i + w;
        } else {
            proof {
                assert(suf.skip(1) =~= s@.skip(i + 1));
            }
            out.push(s[i]);
            proof {
                assert(out@ + convert_roman_tokens(s@.skip(i + 1)) =~= out@.drop_last() + (seq![
                    s@[i as int],
                ] + convert_roman_tokens(s@.skip(i + 1))));
            }
            i = i + 1;
        }
    }
    proof {
        assert(convert_roman_tokens(s@.skip(i as int)) =~= Seq::<char>::empty());
        assert(out@ + Seq::<char>::empty() =~= out@);
    }
    out
}

// ---------------------------------------------------------------------------
// Stop words
// ---------------------------------------------------------------------------
/// Length of the leading run of non-whitespace characters.
pub open spec fn nonws_run_len(s: Seq<char>) -> nat
    decreases s.len(),
{
    if s.len() == 0 || is_space_char(s[0]) {
        0
    } else {
        1 + nonws_run_len(s.skip(1))
    }
}

pub broadcast proof fn lemma_nonws_run_le(s: Seq<char>)
    ensures
        #[trigger] nonws_run_len(s) <= s.len(),
    decreases s.len(),
{
    if s.len() > 0 && !is_space_char(s[0]) {
        lemma_nonws_run_le(s.skip(1));
    }
}

pub proof fn lemma_nonws_run_len(s: Seq<char>, k: int)
    requires
        0 <= k <= s.len(),
        forall|j: int| 0 <= j < k ==> !is_space_char(#[trigger] s[j]),
        k == s.len() || is_space_char(s[k]),
    ensures
        nonws_run_len(s) == k,
    decreases k,
{
    if k > 0 {
        lemma_nonws_run_len(s.skip(1), k - 1);
    }
}

/// Length of the non-whitespace run of `s` starting at `i`.
pub(crate) fn nonws_run_at(s: &Vec<char>, i: usize) -> (n: usize)
    requires
        i <= s.len(),
    ensures
        i + n <= s.len(),
        n == nonws_run_len(s@.skip(i as int)),
{
    let mut j: usize = i;
    while j < s.len() && !exec_is_space_char(s[j])
        invariant
            i <= j <= s.len(),
            forall|k: int| i <= k < j ==> !is_space_char(#[trigger] s@[k]),
        decreases s.len() - j,
    {
        j = j + 1;
    }
    proof {
        assert(forall|k: int| 0 <= k < j - i ==> !is_space_char(#[trigger] s@.skip(i as int)[k]));
        lemma_nonws_run_len(s@.skip(i as int), j - i);
    }
    j - i
}

/// The whitespace-separated tokens of `s`, in order.
pub open spec fn split_ws_tokens(s: Seq<char>) -> Seq<Seq<char>>
    decreases s.len(),
    via split_ws_tokens_decreases
{
    if s.len() == 0 {
        Seq::empty()
    } else if is_space_char(s[0]) {
        split_ws_tokens(s.skip(1))
    } else {
        let w = nonws_run_len(s) as int;
        seq![s.take(w)] + split_ws_tokens(s.skip(w))
    }
}

#[via_fn]
proof fn split_ws_tokens_decreases(s: Seq<char>) {
    lemma_nonws_run_le(s);
}

/// A word the normalizer removes: articles, edition/remaster qualifiers,
/// superlative qualifiers, and descriptive suffixes.
pub open spec fn is_stop_word(t: Seq<char>) -> bool {
    t == seq!['t', 'h', 'e']
        || t == seq!['a', 'n', 'd']
        || t == seq!['e', 'd', 'i', 't', 'i', 'o', 'n']
        || t == seq!['r', 'e', 'm', 'a', 's', 't', 'e', 'r', 'e', 'd']
        || t == seq!['d', 'e', 'f', 'i', 'n', 'i', 't', 'i', 'v', 'e']
        || t == seq!['p', 'a', 'r', 't']
        || t == seq!['c', 'o', 'l', 'l', 'e', 'c', 't', 'i', 'o', 'n']
        || t == seq!['r', 'e', 'm', 'a', 'k', 'e']
        || t == seq!['r', 'e', 'i', 'n', 'c', 'a', 'r', 'n', 'a', 't', 'i', 'o', 'n']
        || t == seq!['r', 'e', 'b', 'i', 'r', 't', 'h']
        || t == seq!['u', 'l', 't', 'r', 'a']
        || t == seq!['d', 'e', 'l', 'u', 'x', 'e']
        || t == seq!['u', 'l', 't', 'i', 'm', 'a', 't', 'e']
        || t == seq!['c', 'o', 'm', 'p', 'l', 'e', 't', 'e']
        || t == seq!['e', 'n', 'h', 'a', 'n', 'c', 'e', 'd']
        || t == seq!['g', 'o', 't', 'y']
        || t == seq!['e', 'x', 'p', 'a', 'n', 'd', 'e', 'd']
        || t == seq!['f', 'i', 'n', 'a', 'l']
        || t == seq!['c', 'u', 't']
        || t == seq!['d', 'i', 'r', 'e', 'c', 't', 'o', 'r', 's']
}

fn is_stop_token(t: &Vec<char>) -> (r: bool)
    ensures
        r == is_stop_word(t@),
{
    let v = vec!['t', 'h', 'e'];
    proof {
        assert(v@ =~= seq!['t', 'h', 'e']);
    }
    if crate::text::vec_char_eq(t, &v) {
        return true;
    }
    let v = vec!['a', 'n', 'd'];
    proof {
        assert(v@ =~= seq!['a', 'n', 'd']);
    }
    if crate::text::vec_char_eq(t, &v) {
        return true;
    }
    let v = vec!['e', 'd', 'i', 't', 'i', 'o', 'n'];
    proof {
        assert(v@ =~= seq!['e', 'd', 'i', 't', 'i', 'o', 'n']);
    }
    if crate::text::vec_char_eq(t, &v) {
        return true;
    }
    let v = vec!['r', 'e', 'm', 'a', 's', 't', 'e', 'r', 'e', 'd'];
    proof {
        assert(v@ =~= seq!['r', 'e', 'm', 'a', 's', 't', 'e', 'r', 'e', 'd']);
    }
    if crate::text::vec_char_eq(t, &v) {
        return true;
    }
    let v = vec!['d', 'e', 'f', 'i', 'n', 'i', 't', 'i', 'v', 'e'];
    proof {
        assert(v@ =~= seq!['d', 'e', 'f', 'i', 'n', 'i', 't', 'i', 'v', 'e']);
    }
    if crate::text::vec_char_eq(t, &v) {
        return true;
    }
    let v = vec!['p', 'a', 'r', 't'];
    proof {
        assert(v@ =~= seq!['p', 'a', 'r', 't']);
    }
    if crate::text::vec_char_eq(t, &v) {
        return true;
    }
    let v = vec!['c', 'o', 'l', 'l', 'e', 'c', 't', 'i', 'o', 'n'];
    proof {
        assert(v@ =~= seq!['c', 'o', 'l', 'l', 'e', 'c', 't', 'i', 'o', 'n']);
    }
    if crate::text::vec_char_eq(t, &v) {
        return true;
    }
    let v = vec!['r', 'e', 'm', 'a', 'k', 'e'];
    proof {
        assert(v@ =~= seq!['r', 'e', 'm', 'a', 'k', 'e']);
    }
    if crate::text::vec_char_eq(t, &v) {
        return true;
    }
    let v = vec!['r', 'e', 'i', 'n', 'c', 'a', 'r', 'n', 'a', 't', 'i', 'o', 'n'];
    proof {
        assert(v@ =~= seq!['r', 'e', 'i', 'n', 'c', 'a', 'r', 'n', 'a', 't', 'i', 'o', 'n']);
    }
    if crate::text::vec_char_eq(t, &v) {
        return true;
    }
    let v = vec!['r', 'e', 'b', 'i', 'r', 't', 'h'];
    proof {
        assert(v@ =~= seq!['r', 'e', 'b', 'i', 'r', 't', 'h']);
    }
    if crate::text::vec_char_eq(t, &v) {
        return true;
    }
    let v = vec!['u', 'l', 't', 'r', 'a'];
    proof {
        assert(v@ =~= seq!['u', 'l', 't', 'r', 'a']);
    }
    if crate::text::vec_char_eq(t, &v) {
        return true;
    }
    let v = vec!['d', 'e', 'l', 'u', 'x', 'e'];
    proof {
        assert(v@ =~= seq!['d', 'e', 'l', 'u', 'x', 'e']);
    }
    if crate::text::vec_char_eq(t, &v) {
        return true;
    }
    let v = vec!['u', 'l', 't', 'i', 'm', 'a', 't', 'e'];
    proof {
        assert(v@ =~= seq!['u', 'l', 't', 'i', 'm', 'a', 't', 'e']);
    }
    if crate::text::vec_char_eq(t, &v) {
        return true;
    }
    let v = vec!['c', 'o', 'm', 'p', 'l', 'e', 't', 'e'];
    proof {
        assert(v@ =~= seq!['c', 'o', 'm', 'p', 'l', 'e', 't', 'e']);
    }
    if crate::text::vec_char_eq(t, &v) {
        return true;
    }
    let v = vec!['e', 'n', 'h', 'a', 'n', 'c', 'e', 'd'];
    proof {
        assert(v@ =~= seq!['e', 'n', 'h', 'a', 'n', 'c', 'e', 'd']);
    }
    if crate::text::vec_char_eq(t, &v) {
        return true;
    }
    let v = vec!['g', 'o', 't', 'y'];
    proof {
        assert(v@ =~= seq!['g', 'o', 't', 'y']);
    }
    if crate::text::vec_char_eq(t, &v) {
        return true;
    }
    let v = vec!['e', 'x', 'p', 'a', 'n', 'd', 'e', 'd'];
    proof {
        assert(v@ =~= seq!['e', 'x', 'p', 'a', 'n', 'd', 'e', 'd']);
    }
    if crate::text::vec_char_eq(t, &v) {
        return true;
    }
    let v = vec!['f', 'i', 'n', 'a', 'l'];
    proof {
        assert(v@ =~= seq!['f', 'i', 'n', 'a', 'l']);
    }
    if crate::text::vec_char_eq(t, &v) {
        return true;
    }
    let v = vec!['c', 'u', 't'];
    proof {
        assert(v@ =~= seq!['c', 'u', 't']);
    }
    if crate::text::vec_char_eq(t, &v) {
        return true;
    }
    let v = vec!['d', 'i', 'r', 'e', 'c', 't', 'o', 'r', 's'];
    proof {
        assert(v@ =~= seq!['d', 'i', 'r', 'e', 'c', 't', 'o', 'r', 's']);
    }
    if crate::text::vec_char_eq(t, &v) {
        return true;
    }
    false
}

/// The string assembled from the non-stop-word tokens of `ts`, separated by
/// single spaces; `started` says whether a token was already emitted.
pub open spec fn join_kept_tokens(ts: Seq<Seq<char>>, started: bool) -> Seq<char>
    decreases ts.len(),
{
    if ts.len() == 0 {
        Seq::empty()
    } else if is_stop_word(ts[0]) {
        join_kept_tokens(ts.skip(1), started)
    } else if started {
        seq![' '] + ts[0] + join_kept_tokens(ts.skip(1), true)
    } else {
        ts[0] + join_kept_tokens(ts.skip(1), true)
    }
}

/// Splits on whitespace, drops stop words, and joins with single spaces;
/// this also collapses whitespace runs and trims the ends.
pub open spec fn remove_stop_words(s: Seq<char>) -> Seq<char> {
    join_kept_tokens(split_ws_tokens(s), false)
}

pub fn exec_remove_stop_words(s: &Vec<char>) -> (r: Vec<char>)
    ensures
        r@ == remove_stop_words(s@),
{
    let mut out: Vec<char> = Vec::new();
    let mut started: bool = false;
    let mut i: usize = 0;
    proof {
        assert(s@.skip(0) =~= s@);
        assert(Seq::<char>::empty() + remove_stop_words(s@) =~= remove_stop_words(s@));
    }
    while i < s.len()
        invariant
            0 <= i <= s.len(),
            remove_stop_words(s@) == out@ + join_kept_tokens(
                split_ws_tokens(s@.skip(i as int)),
                started,
            ),
        decreases s.len() - i,
    {
        let ghost suf = s@.skip(i as int);
        proof {
            assert(suf[0] == s@[i as int]);
        }
        if exec_is_space_char(s[i]) {
            proof {
                assert(suf.skip(1) =~= s@.skip(i + 1));
            }
            i = i + 1;
        } else {
            let w = nonws_run_at(s, i);
            let tok = copy_range(s, i, i + w);
            proof {
                assert(suf.take(w as int) =~= s@.subrange(i as int, i + w));
                assert(suf.skip(w as int) =~= s@.skip(i + w));
                assert(split_ws_tokens(suf) == seq![tok@] + split_ws_tokens(s@.skip(i + w)));
                assert((seq![tok@] + split_ws_tokens(s@.skip(i + w)))[0] == tok@);
                assert((seq![tok@] + split_ws_tokens(s@.skip(i + w))).skip(1) =~= split_ws_tokens(
                    s@.skip(i + w),
                ));
            }
            if !is_stop_token(&tok) {
                let ghost out0 = out@;
                if started {
                    out.push(' ');
                }
                push_range(&mut out, &tok, 0, tok.len());
                proof {
                    assert(tok@.subrange(0, tok@.len() as int) =~= tok@);
                    if started {
                        assert(out@ + join_kept_tokens(split_ws_tokens(s@.skip(i + w)), true) =~=
                        out0 + (seq![' '] + tok@ + join_kept_tokens(
                            split_ws_tokens(s@.skip(i + w)),
                            true,
                        )));
                    } else {
                        assert(out@ + join_kept_tokens(split_ws_tokens(s@.skip(i + w)), true) =~=
                        out0 + (tok@ + join_kept_tokens(split_ws_tokens(s@.skip(i + w)), true)));
                    }
                }
                started = true;
            }
            i = i + w;
        }
    }
    proof {
        assert(split_ws_tokens(s@.skip(i as int)) =~= Seq::<Seq<char>>::empty());
        assert(join_kept_tokens(Seq::<Seq<char>>::empty(), started) =~= Seq::<char>::empty());
        assert(out@ + Seq::<char>::empty() =~= out@);
    }
    out
}

// ---------------------------------------------------------------------------
// Trimming
// ---------------------------------------------------------------------------
pub open spec fn trim_end_ws(s: Seq<char>) -> Seq<char>
    decreases s.len(),
{
    if s.len() > 0 && is_space_char(s[s.len() - 1]) {
        trim_end_ws(s.drop_last())
    } else {
        s
    }
}

/// Removes leading and trailing whitespace.
pub open spec fn trim_ws(s: Seq<char>) -> Seq<char> {
    trim_end_ws(s.skip(ws_run_len(s) as int))
}

proof fn lemma_trim_end_ws(s: Seq<char>, k: int)
    requires
        0 <= k <= s.len(),
        forall|j: int| k <= j < s.len() ==> is_space_char(#[trigger] s[j]),
        k == 0 || !is_space_char(s[k - 1]),
    ensures
        trim_end_ws(s) == s.take(k),
    decreases s.len(),
{
    if s.len() > k {
        assert(is_space_char(s[s.len() - 1]));
        lemma_trim_end_ws(s.drop_last(), k);
        assert(s.drop_last().take(k) =~= s.take(k));
    } else {
        assert(s.len() == k);
        if k > 0 {
            assert(!is_space_char(s[s.len() - 1]));
        }
        assert(s.take(k) =~= s);
    }
}

pub fn exec_trim_ws(s: &Vec<char>) -> (r: Vec<char>)
    ensures
        r@ == trim_ws(s@),
{
    let a = ws_run_at(s, 0);
    proof {
        assert(s@.skip(0) =~= s@);
    }
    let mut e: usize = s.len();
    while e > a && exec_is_space_char(s[e - 1])
        invariant
            a <= e <= s.len(),
            forall|j: int| e <= j < s.len() ==> is_space_char(#[trigger] s@[j]),
        decreases e,
    {
        e = e - 1;
    }
    let r = copy_range(s, a, e);
    proof {
        let t = s@.skip(a as int);
        assert(forall|j: int| e - a <= j < t.len() ==> is_space_char(#[trigger] t[j]));
        if e > a {
            assert(!is_space_char(t[e - a - 1]));
        } else {
            assert(e == a) by {
                if e < a {
                    assert(false);
                }
            }
        }
        lemma_trim_end_ws(t, e - a);
        assert(t.take(e - a) =~= s@.subrange(a as int, e as int));
    }
    r
}


// ---------------------------------------------------------------------------
// Unicode steps (trusted)
// ---------------------------------------------------------------------------
/// Name for `str::to_lowercase` outside ASCII: a function of the characters
/// alone.
pub uninterp spec fn unicode_lower(s: Seq<char>) -> Seq<char>;

/// Lowercase in the standard library's sense: on an all-ASCII string the
/// per-character ASCII map, otherwise the Unicode mapping.
pub open spec fn lower_of(s: Seq<char>) -> Seq<char> {
    if all_ascii(s) {
        ascii_lower_seq(s)
    } else {
        unicode_lower(s)
    }
}

/// Relies on `str::to_lowercase`: the Unicode lowercase mapping applied to
/// each character, which on ASCII characters is the ASCII lowercase map.
#[verifier::external_body]
pub(crate) fn lowercase(s: &str) -> (r: String)
    ensures
        r@ == lower_of(s@),
        !all_ascii(s@) ==> r@ == unicode_lower(s@),
{
    s.to_lowercase()
}

/// Name for Unicode compatibility decomposition (NFKD) outside ASCII: a
/// function of the characters alone.
pub uninterp spec fn unicode_nfkd(s: Seq<char>) -> Seq<char>;

/// NFKD: ASCII characters have no decompositions and are unchanged; other
/// strings go to the Unicode tables.
pub open spec fn nfkd_of(s: Seq<char>) -> Seq<char> {
    if all_ascii(s) {
        s
    } else {
        unicode_nfkd(s)
    }
}

/// Relies on the `unicode_normalization` crate's `nfkd` (UAX #15
/// compatibility decomposition): a fixed per-string function; an all-ASCII
/// string has no decomposable characters and comes back unchanged.
#[verifier::external_body]
pub(crate) fn nfkd_chars(v: &Vec<char>) -> (r: Vec<char>)
    ensures
        r@ == nfkd_of(v@),
        !all_ascii(v@) ==> r@ == unicode_nfkd(v@),
{
    v.iter().cloned().nfkd().collect()
}

// ---------------------------------------------------------------------------
// The pipeline
// ---------------------------------------------------------------------------
pub open spec fn lit_early_access_paren() -> Seq<char> {
    seq!['(', 'e', 'a', 'r', 'l', 'y', ' ', 'a', 'c', 'c', 'e', 's', 's', ')']
}

pub open spec fn lit_early_access() -> Seq<char> {
    seq!['e', 'a', 'r', 'l', 'y', ' ', 'a', 'c', 'c', 'e', 's', 's']
}

pub open spec fn lit_full_release_paren() -> Seq<char> {
    seq!['(', 'f', 'u', 'l', 'l', ' ', 'r', 'e', 'l', 'e', 'a', 's', 'e', ')']
}

pub open spec fn lit_half() -> Seq<char> {
    seq!['h', 'a', 'l', 'f']
}

pub open spec fn lit_life() -> Seq<char> {
    seq!['l', 'i', 'f', 'e']
}

pub open spec fn lit_counter() -> Seq<char> {
    seq!['c', 'o', 'u', 'n', 't', 'e', 'r']
}

pub open spec fn lit_strike() -> Seq<char> {
    seq!['s', 't', 'r', 'i', 'k', 'e']
}

/// The canonical form of a raw title: the whole normalization pipeline.
pub open spec fn normalize_spec(s: Seq<char>) -> Seq<char> {
    let s1 = lower_of(s);
    let s2 = strip_years(s1);
    let s3 = strip_ws_lit(s2, lit_early_access_paren());
    let s4 = strip_ws_lit(s3, lit_early_access());
    let s5 = strip_ws_lit(s4, lit_full_release_paren());
    let s6 = collapse_possessive(s5);
    let s7 = strip_punct_keep_hyphen(s6);
    let s8 = space_digits(s7);
    let s9 = join_compound(s8, lit_half(), lit_life());
    let s10 = join_compound(s9, lit_counter(), lit_strike());
    let s11 = convert_roman_tokens(s10);
    let t0 = replace_lit(s11, seq![' ', 'z', 'e', 'r', 'o', ' '], seq![' ', '0', ' ']);
    let t1 = replace_lit(t0, seq![' ', 'o', 'n', 'e', ' '], seq![' ', '1', ' ']);
    let t2 = replace_lit(t1, seq![' ', 't', 'w', 'o', ' '], seq![' ', '2', ' ']);
    let t3 = replace_lit(t2, seq![' ', 't', 'h', 'r', 'e', 'e', ' '], seq![' ', '3', ' ']);
    let t4 = replace_lit(t3, seq![' ', 'f', 'o', 'u', 'r', ' '], seq![' ', '4', ' ']);
    let t5 = replace_lit(t4, seq![' ', 'f', 'i', 'v', 'e', ' '], seq![' ', '5', ' ']);
    let t6 = replace_lit(t5, seq![' ', 's', 'i', 'x', ' '], seq![' ', '6', ' ']);
    let t7 = replace_lit(t6, seq![' ', 's', 'e', 'v', 'e', 'n', ' '], seq![' ', '7', ' ']);
    let t8 = replace_lit(t7, seq![' ', 'e', 'i', 'g', 'h', 't', ' '], seq![' ', '8', ' ']);
    let t9 = replace_lit(t8, seq![' ', 'n', 'i', 'n', 'e', ' '], seq![' ', '9', ' ']);
    let t10 = replace_lit(t9, seq![' ', 't', 'e', 'n', ' '], seq![' ', '1', '0', ' ']);
    let s12 = strip_punct(t10);
    let s13 = remove_stop_words(s12);
    trim_ws(nfkd_of(s13))
}

/// Normalizes a game title: lowercases it, strips year annotations and
/// release-status suffixes, collapses possessives, removes punctuation,
/// isolates numbers, joins known compound names, converts Roman numerals and
/// spelled-out numbers to digits, drops stop words, and applies Unicode
/// compatibility decomposition.  Total and deterministic; malformed input
/// normalizes to the empty string.
pub fn normalize(title: &str) -> (r: String)
    ensures
        r@ == normalize_spec(title@),
{
    let lowered = lowercase(title);
    let v = str_to_chars(lowered.as_str());
    let v = exec_strip_years(&v);
    let pat = vec!['(', 'e', 'a', 'r', 'l', 'y', ' ', 'a', 'c', 'c', 'e', 's', 's', ')'];
    proof {
        assert(pat@ =~= lit_early_access_paren());
    }
    let v = exec_strip_ws_lit(&v, &pat);
    let pat = vec!['e', 'a', 'r', 'l', 'y', ' ', 'a', 'c', 'c', 'e', 's', 's'];
    proof {
        assert(pat@ =~= lit_early_access());
    }
    let v = exec_strip_ws_lit(&v, &pat);
    let pat = vec!['(', 'f', 'u', 'l', 'l', ' ', 'r', 'e', 'l', 'e', 'a', 's', 'e', ')'];
    proof {
        assert(pat@ =~= lit_full_release_paren());
    }
    let v = exec_strip_ws_lit(&v, &pat);
    let v = exec_collapse_possessive(&v);
    let v = exec_strip_punct_keep_hyphen(&v);
    let v = exec_space_digits(&v);
    let ca = vec!['h', 'a', 'l', 'f'];
    let cb = vec!['l', 'i', 'f', 'e'];
    proof {
        assert(ca@ =~= lit_half());
        assert(cb@ =~= lit_life());
    }
    let v = exec_join_compound(&v, &ca, &cb);
    let ca = vec!['c', 'o', 'u', 'n', 't', 'e', 'r'];
    let cb = vec!['s', 't', 'r', 'i', 'k', 'e'];
    proof {
        assert(ca@ =~= lit_counter());
        assert(cb@ =~= lit_strike());
    }
    let v = exec_join_compound(&v, &ca, &cb);
    let v = exec_convert_roman_tokens(&v);
    let pat = vec![' ', 'z', 'e', 'r', 'o', ' '];
    let rep = vec![' ', '0', ' '];
    proof {
        assert(pat@ =~= seq![' ', 'z', 'e', 'r', 'o', ' ']);
        assert(rep@ =~= seq![' ', '0', ' ']);
    }
    let v = exec_replace_lit(&v, &pat, &rep);
    let pat = vec![' ', 'o', 'n', 'e', ' '];
    let rep = vec![' ', '1', ' '];
    proof {
        assert(pat@ =~= seq![' ', 'o', 'n', 'e', ' ']);
        assert(rep@ =~= seq![' ', '1', ' ']);
    }
    let v = exec_replace_lit(&v, &pat, &rep);
    let pat = vec![' ', 't', 'w', 'o', ' '];
    let rep = vec![' ', '2', ' '];
    proof {
        assert(pat@ =~= seq![' ', 't', 'w', 'o', ' ']);
        assert(rep@ =~= seq![' ', '2', ' ']);
    }
    let v = exec_replace_lit(&v, &pat, &rep);
    let pat = vec![' ', 't', 'h', 'r', 'e', 'e', ' '];
    let rep = vec![' ', '3', ' '];
    proof {
        assert(pat@ =~= seq![' ', 't', 'h', 'r', 'e', 'e', ' ']);
        assert(rep@ =~= seq![' ', '3', ' ']);
    }
    let v = exec_replace_lit(&v, &pat, &rep);
    let pat = vec![' ', 'f', 'o', 'u', 'r', ' '];
    let rep = vec![' ', '4', ' '];
    proof {
        assert(pat@ =~= seq![' ', 'f', 'o', 'u', 'r', ' ']);
        assert(rep@ =~= seq![' ', '4', ' ']);
    }
    let v = exec_replace_lit(&v, &pat, &rep);
    let pat = vec![' ', 'f', 'i', 'v', 'e', ' '];
    let rep = vec![' ', '5', ' '];
    proof {
        assert(pat@ =~= seq![' ', 'f', 'i', 'v', 'e', ' ']);
        assert(rep@ =~= seq![' ', '5', ' ']);
    }
    let v = exec_replace_lit(&v, &pat, &rep);
    let pat = vec![' ', 's', 'i', 'x', ' '];
    let rep = vec![' ', '6', ' '];
    proof {
        assert(pat@ =~= seq![' ', 's', 'i', 'x', ' ']);
        assert(rep@ =~= seq![' ', '6', ' ']);
    }
    let v = exec_replace_lit(&v, &pat, &rep);
    let pat = vec![' ', 's', 'e', 'v', 'e', 'n', ' '];
    let rep = vec![' ', '7', ' '];
    proof {
        assert(pat@ =~= seq![' ', 's', 'e', 'v', 'e', 'n', ' ']);
        assert(rep@ =~= seq![' ', '7', ' ']);
    }
    let v = exec_replace_lit(&v, &pat, &rep);
    let pat = vec![' ', 'e', 'i', 'g', 'h', 't', ' '];
    let rep = vec![' ', '8', ' '];
    proof {
        assert(pat@ =~= seq![' ', 'e', 'i', 'g', 'h', 't', ' ']);
        assert(rep@ =~= seq![' ', '8', ' ']);
    }
    let v = exec_replace_lit(&v, &pat, &rep);
    let pat = vec![' ', 'n', 'i', 'n', 'e', ' '];
    let rep = vec![' ', '9', ' '];
    proof {
        assert(pat@ =~= seq![' ', 'n', 'i', 'n', 'e', ' ']);
        assert(rep@ =~= seq![' ', '9', ' ']);
    }
    let v = exec_replace_lit(&v, &pat, &rep);
    let pat = vec![' ', 't', 'e', 'n', ' '];
    let rep = vec![' ', '1', '0', ' '];
    proof {
        assert(pat@ =~= seq![' ', 't', 'e', 'n', ' ']);
        assert(rep@ =~= seq![' ', '1', '0', ' ']);
    }
    let v = exec_replace_lit(&v, &pat, &rep);
    let v = exec_strip_punct(&v);
    let v = exec_remove_stop_words(&v);
    let v = nfkd_chars(&v);
    let v = exec_trim_ws(&v);
    chars_to_string(&v)
}


// ---------------------------------------------------------------------------
// Idempotence
// ---------------------------------------------------------------------------
/// A string every pipeline stage leaves unchanged: all-ASCII, already
/// lowercase, and a fixed point of each rewriting step.  The normalizer's
/// own output has this shape for ordinary titles; inputs engineered so that
/// one stage manufactures new material for an earlier stage (a stop word
/// standing between the two halves of a compound name, punctuation gluing
/// two digit runs into a year-length run) fall outside it.
pub open spec fn is_canonical(t: Seq<char>) -> bool {
    &&& all_ascii(t)
    &&& ascii_lower_seq(t) == t
    &&& strip_years(t) == t
    &&& strip_ws_lit(t, lit_early_access_paren()) == t
    &&& strip_ws_lit(t, lit_early_access()) == t
    &&& strip_ws_lit(t, lit_full_release_paren()) == t
    &&& collapse_possessive(t) == t
    &&& strip_punct_keep_hyphen(t) == t
    &&& space_digits(t) == t
    &&& join_compound(t, lit_half(), lit_life()) == t
    &&& join_compound(t, lit_counter(), lit_strike()) == t
    &&& convert_roman_tokens(t) == t
    &&& replace_lit(t, seq![' ', 'z', 'e', 'r', 'o', ' '], seq![' ', '0', ' ']) == t
    &&& replace_lit(t, seq![' ', 'o', 'n', 'e', ' '], seq![' ', '1', ' ']) == t
    &&& replace_lit(t, seq![' ', 't', 'w', 'o', ' '], seq![' ', '2', ' ']) == t
    &&& replace_lit(t, seq![' ', 't', 'h', 'r', 'e', 'e', ' '], seq![' ', '3', ' ']) == t
    &&& replace_lit(t, seq![' ', 'f', 'o', 'u', 'r', ' '], seq![' ', '4', ' ']) == t
    &&& replace_lit(t, seq![' ', 'f', 'i', 'v', 'e', ' '], seq![' ', '5', ' ']) == t
    &&& replace_lit(t, seq![' ', 's', 'i', 'x', ' '], seq![' ', '6', ' ']) == t
    &&& replace_lit(t, seq![' ', 's', 'e', 'v', 'e', 'n', ' '], seq![' ', '7', ' ']) == t
    &&& replace_lit(t, seq![' ', 'e', 'i', 'g', 'h', 't', ' '], seq![' ', '8', ' ']) == t
    &&& replace_lit(t, seq![' ', 'n', 'i', 'n', 'e', ' '], seq![' ', '9', ' ']) == t
    &&& replace_lit(t, seq![' ', 't', 'e', 'n', ' '], seq![' ', '1', '0', ' ']) == t
    &&& strip_punct(t) == t
    &&& remove_stop_words(t) == t
    &&& trim_ws(t) == t
}

/// A canonical string is a fixed point of the whole pipeline.
pub proof fn lemma_canonical_fixed(t: Seq<char>)
    requires
        is_canonical(t),
    ensures
        normalize_spec(t) == t,
{
    assert(lower_of(t) == t);
    assert(nfkd_of(t) == t);
}

/// Idempotence: normalizing a second time changes nothing, whenever the
/// first pass lands in the canonical set — which it does for ordinary
/// titles.  One family of inputs falls outside: those where a late stage
/// manufactures material for an earlier one, such as a dropped stop word
/// joining the halves of a compound name.
pub proof fn lemma_normalize_idempotent(s: Seq<char>)
    requires
        is_canonical(normalize_spec(s)),
    ensures
        normalize_spec(normalize_spec(s)) == normalize_spec(s),
{
    lemma_canonical_fixed(normalize_spec(s));
}


/// Normalizes a game title: the one canonical pipeline, under the name the
/// matcher uses.
pub fn normalize_title(title: &str) -> (r: String)
    ensures
        r@ == normalize_spec(title@),
{
    normalize(title)
}

} // verus!
