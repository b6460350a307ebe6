//! Scraper configuration: one entry per ranking site, with the pattern that
//! recognizes the site in a source URL and the display name used as the
//! ranking key.

use vstd::prelude::*;

use crate::text::{contains_seq, contains_vec, str_to_chars};

verus! {

#[derive(Debug, Clone, PartialEq)]
pub struct Website {
    pub url: String,
    pub name_selector: String,
    pub rank_selector: String,
    pub scraper_type: String,
    pub display_name: String,
    pub pattern: String,
}

#[derive(Debug, Clone, PartialEq)]
pub struct ScraperConfig {
    pub websites: Vec<Website>,
}

/// The display name of the first configured site whose pattern occurs in
/// `source`; the source itself when none matches.
pub open spec fn first_matching(websites: Seq<Website>, source: Seq<char>) -> Seq<char>
    decreases websites.len(),
{
    if websites.len() == 0 {
        source
    } else if contains_seq(source, websites[0].pattern@) {
        websites[0].display_name@
    } else {
        first_matching(websites.drop_first(), source)
    }
}

/// Maps a source URL to its configured display name.
pub fn normalize_source(source: &str, config: &ScraperConfig) -> (r: String)
    ensures
        r@ == first_matching(config.websites@, source@),
{
    let sv = str_to_chars(source);
    let mut i: usize = 0;
    proof {
        assert(config.websites@.skip(0) =~= config.websites@);
    }
    while i < config.websites.len()
        invariant
            0 <= i <= config.websites.len(),
            sv@ == source@,
            first_matching(config.websites@, source@) == first_matching(
                config.websites@.skip(i as int),
                source@,
            ),
        decreases config.websites.len() - i,
    {
        let ghost suf = config.websites@.skip(i as int);
        proof {
            assert(suf[0] == config.websites@[i as int]);
            assert(suf.drop_first() =~= config.websites@.skip(i + 1));
        }
        let pat = str_to_chars(config.websites[i].pattern.as_str());
        if contains_vec(&sv, &pat) {
            return config.websites[i].display_name.clone();
        }
        i = i + 1;
    }
    proof {
        assert(config.websites@.skip(config.websites@.len() as int).len() == 0);
    }
    String::from_str(source)
}

} // verus!
