//! Publishing helpers: the file names under which a game's assets are
//! stored when a finished manifest is prepared for static hosting.  The
//! downloads themselves happen outside the core.

use vstd::prelude::*;

use crate::chars::{char_alnum, char_is_alphanumeric};
use crate::normalize::{lower_of, lowercase};
use crate::text::{chars_to_string, str_to_chars};

verus! {

/// A character admissible in a published file name; everything else is
/// replaced by an underscore.
pub open spec fn sanitize_char(c: char) -> char {
    if char_alnum(c) || c == '-' || c == '_' {
        c
    } else {
        '_'
    }
}

/// The file name for a game's asset: the lowercased title with every
/// character outside letters, digits, hyphen and underscore replaced by an
/// underscore.
pub open spec fn sanitize_spec(title: Seq<char>) -> Seq<char> {
    lower_of(title).map_values(|c: char| sanitize_char(c))
}

/// The static-hosting publisher: the account and repository the prepared
/// assets are addressed under.
#[derive(Debug, Clone, PartialEq)]
pub struct PublishService {
    pub username: String,
    pub repo: String,
}

impl PublishService {
    pub fn new(username: String, repo: String) -> (s: PublishService)
        ensures
            s.username == username,
            s.repo == repo,
    {
        PublishService { username, repo }
    }

    /// Derives the asset file name for a title.
    pub fn sanitize_filename(&self, title: &str) -> (r: String)
        ensures
            r@ == sanitize_spec(title@),
    {
        let lowered = lowercase(title);
        let v = str_to_chars(lowered.as_str());
        let mut out: Vec<char> = Vec::new();
        let mut i: usize = 0;
        while i < v.len()
            invariant
                0 <= i <= v.len(),
                v@ == lower_of(title@),
                out@ == lower_of(title@).take(i as int).map_values(|c: char| sanitize_char(c)),
            decreases v.len() - i,
        {
            let c = v[i];
            if char_is_alphanumeric(c) || c == '-' || c == '_' {
                out.push(c);
            } else {
                out.push('_');
            }
            proof {
                assert(out@ =~= lower_of(title@).take(i + 1).map_values(
                    |c2: char| sanitize_char(c2),
                ));
            }
            i = i + 1;
        }
        proof {
            assert(lower_of(title@).take(v@.len() as int) =~= lower_of(title@));
        }
        chars_to_string(&out)
    }
}

} // verus!
