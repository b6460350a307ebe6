//! Title presentation utilities: the display formatter and the normalizer's
//! entry points, grouped under `TitleNormalizer`.
//!
//! The display form capitalizes each word except a small list of minor
//! words, always capitalizing the first word.  It is one-way presentation
//! and never serves as a matching key.

use vstd::prelude::*;

use crate::chars::{is_ascii_char, is_ascii_lower};
use crate::config::{first_matching, ScraperConfig};
use crate::normalize::{lower_of, lowercase, normalize, normalize_spec, nonws_run_at,
    split_ws_tokens};
use crate::text::{chars_to_string, str_to_chars, vec_char_eq};

verus! {

pub open spec fn ascii_upper_char(c: char) -> char {
    if is_ascii_lower(c) {
        ((c as u8) - 32) as char
    } else {
        c
    }
}

/// Name for the `char::to_uppercase` expansion outside ASCII: a fixed
/// per-character table.
pub uninterp spec fn unicode_upper_ext(c: char) -> Seq<char>;

/// The uppercase expansion of one character: on ASCII the single ASCII
/// uppercase character, outside ASCII the Unicode table (which may expand
/// to several characters).
pub open spec fn upper_char_of(c: char) -> Seq<char> {
    if is_ascii_char(c) {
        seq![ascii_upper_char(c)]
    } else {
        unicode_upper_ext(c)
    }
}

/// Relies on `char::to_uppercase`: the Unicode uppercase mapping of one
/// character, whose ASCII part is the ASCII uppercase map.
#[verifier::external_body]
fn char_to_upper(c: char) -> (r: Vec<char>)
    ensures
        r@ == upper_char_of(c),
        !is_ascii_char(c) ==> r@ == unicode_upper_ext(c),
{
    c.to_uppercase().collect()
}

/// A word kept lowercase in display titles, unless it comes first.
pub open spec fn is_minor_word(t: Seq<char>) -> bool {
    t == "the"@ || t == "of"@ || t == "and"@ || t == "in"@ || t == "on"@ || t == "at"@ || t
        == "to"@ || t == "for"@ || t == "with"@
}

fn is_minor_token(t: &Vec<char>) -> (r: bool)
    ensures
        r == is_minor_word(t@),
{
    let w = str_to_chars("the");
    if vec_char_eq(t, &w) {
        return true;
    }
    let w = str_to_chars("of");
    if vec_char_eq(t, &w) {
        return true;
    }
    let w = str_to_chars("and");
    if vec_char_eq(t, &w) {
        return true;
    }
    let w = str_to_chars("in");
    if vec_char_eq(t, &w) {
        return true;
    }
    let w = str_to_chars("on");
    if vec_char_eq(t, &w) {
        return true;
    }
    let w = str_to_chars("at");
    if vec_char_eq(t, &w) {
        return true;
    }
    let w = str_to_chars("to");
    if vec_char_eq(t, &w) {
        return true;
    }
    let w = str_to_chars("for");
    if vec_char_eq(t, &w) {
        return true;
    }
    let w = str_to_chars("with");
    if vec_char_eq(t, &w) {
        return true;
    }
    false
}

/// One display word: capitalized unless it is a minor word in a non-first
/// position, in which case it is lowercased.
pub open spec fn display_token(w: Seq<char>, first: bool) -> Seq<char> {
    if first || !is_minor_word(lower_of(w)) {
        if w.len() == 0 {
            w
        } else {
            upper_char_of(w[0]) + w.skip(1)
        }
    } else {
        lower_of(w)
    }
}

pub open spec fn display_tokens(ts: Seq<Seq<char>>, first: bool) -> Seq<char>
    decreases ts.len(),
{
    if ts.len() == 0 {
        Seq::empty()
    } else if first {
        display_token(ts[0], true) + display_tokens(ts.skip(1), false)
    } else {
        seq![' '] + display_token(ts[0], false) + display_tokens(ts.skip(1), false)
    }
}

/// The display form of a title.
pub open spec fn format_display_spec(s: Seq<char>) -> Seq<char> {
    display_tokens(split_ws_tokens(s), true)
}

/// Formats a title for display: every word is capitalized except minor
/// words in non-first positions, which are lowercased; whitespace runs
/// collapse to single spaces.
pub fn format_display_title(title: &str) -> (r: String)
    ensures
        r@ == format_display_spec(title@),
{
    let s = str_to_chars(title);
    let mut out: Vec<char> = Vec::new();
    let mut first: bool = true;
    let mut i: usize = 0;
    proof {
        assert(s@.skip(0) =~= s@);
        assert(Seq::<char>::empty() + format_display_spec(title@) =~= format_display_spec(
            title@,
        ));
    }
    while i < s.len()
        invariant
            0 <= i <= s.len(),
            s@ == title@,
            format_display_spec(title@) == out@ + display_tokens(
                split_ws_tokens(s@.skip(i as int)),
                first,
            ),
        decreases s.len() - i,
    {
        let ghost suf = s@.skip(i as int);
        proof {
            assert(suf[0] == s@[i as int]);
        }
        if crate::chars::exec_is_space_char(s[i]) {
            proof {
                assert(suf.skip(1) =~= s@.skip(i + 1));
            }
            i = i + 1;
        } else {
            let w = nonws_run_at(&s, i);
            let tok = crate::normalize::copy_range(&s, i, i + w);
            proof {
                assert(suf.take(w as int) =~= s@.subrange(i as int, i + w));
                assert(suf.skip(w as int) =~= s@.skip(i + w));
                assert(split_ws_tokens(suf) == seq![tok@] + split_ws_tokens(s@.skip(i + w)));
                assert((seq![tok@] + split_ws_tokens(s@.skip(i + w)))[0] == tok@);
                assert((seq![tok@] + split_ws_tokens(s@.skip(i + w))).skip(1) =~= split_ws_tokens(
                    s@.skip(i + w),
                ));
            }
            let tok_str = chars_to_string(&tok);
            let lowered = lowercase(tok_str.as_str());
            let low = str_to_chars(lowered.as_str());
            let ghost out0 = out@;
            if !first {
                out.push(' ');
            }
            if first || !is_minor_token(&low) {
                let up = char_to_upper(tok[0]);
                crate::normalize::push_range(&mut out, &up, 0, up.len());
                crate::normalize::push_range(&mut out, &tok, 1, tok.len());
                proof {
                    assert(up@.subrange(0, up@.len() as int) =~= up@);
                    assert(tok@.subrange(1, tok@.len() as int) =~= tok@.skip(1));
                    assert(display_token(tok@, first) == upper_char_of(tok@[0]) + tok@.skip(1));
                    if first {
                        assert(out@ =~= out0 + display_token(tok@, true));
                    } else {
                        assert(out@ =~= out0 + (seq![' '] + display_token(tok@, false)));
                    }
                }
            } else {
                crate::normalize::push_range(&mut out, &low, 0, low.len());
                proof {
                    assert(low@.subrange(0, low@.len() as int) =~= low@);
                    assert(display_token(tok@, false) == lower_of(tok@));
                    assert(out@ =~= out0 + (seq![' '] + display_token(tok@, false)));
                }
            }
            proof {
                if first {
                    assert(out@ + display_tokens(split_ws_tokens(s@.skip(i + w)), false) =~= out0
                        + (display_token(tok@, true) + display_tokens(
                        split_ws_tokens(s@.skip(i + w)),
                        false,
                    )));
                } else {
                    assert(out@ + display_tokens(split_ws_tokens(s@.skip(i + w)), false) =~= out0
                        + (seq![' '] + display_token(tok@, false) + display_tokens(
                        split_ws_tokens(s@.skip(i + w)),
                        false,
                    )));
                }
            }
            first = false;
            i = i + w;
        }
    }
    proof {
        assert(split_ws_tokens(s@.skip(i as int)) =~= Seq::<Seq<char>>::empty());
        assert(display_tokens(Seq::<Seq<char>>::empty(), first) =~= Seq::<char>::empty());
        assert(out@ + Seq::<char>::empty() =~= out@);
    }
    chars_to_string(&out)
}

/// Utilities for processing and normalizing game titles.
pub struct TitleNormalizer;

impl TitleNormalizer {
    /// The canonical normalization pipeline.
    pub fn normalize(title: &str) -> (r: String)
        ensures
            r@ == normalize_spec(title@),
    {
        normalize(title)
    }

    /// The display formatter.
    pub fn format_for_display(title: &str) -> (r: String)
        ensures
            r@ == format_display_spec(title@),
    {
        format_display_title(title)
    }

    /// Maps a source URL to its configured display name.
    pub fn normalize_source(source: &str, scraper_config: &ScraperConfig) -> (r: String)
        ensures
            r@ == first_matching(scraper_config.websites@, source@),
    {
        crate::config::normalize_source(source, scraper_config)
    }
}

} // verus!
