//! Preparing stylesheet text for the scanner: comments out, double quotes
//! turned into single quotes, several sources joined.

use crate::scan::{concat_all, join_all, texts};
use crate::text::{replace_char, swap_char};
use regex::Regex;
use vstd::prelude::*;

verus! {

/// The text with every `/* ... */` comment removed, as `regex` does it.
pub uninterp spec fn comments_removed(s: Seq<char>) -> Seq<char>;

/// Relies on regex's `Regex::replace_all` with the pattern `(?s)/\*.*?\*/`
/// and an empty replacement: every comment, shortest match first, is
/// removed. The pattern is valid, so `Regex::new` does not fail.
#[verifier::external_body]
fn strip_comments(s: &str) -> (r: String)
    ensures
        r@ == comments_removed(s@),
{
    Regex::new(r"(?s)/\*.*?\*/").unwrap().replace_all(s, "").into_owned()
}

/// A stylesheet ready for the scanner: comments removed, then double quotes
/// replaced by single quotes.
pub open spec fn cleaned(s: Seq<char>) -> Seq<char> {
    swap_char(comments_removed(s), '"', '\'')
}

/// Removes comments and turns double quotes into single quotes.
pub fn clean_css(content: &str) -> (r: String)
    ensures
        r@ == cleaned(content@),
{
    let without = strip_comments(content);
    replace_char(without.as_str(), '"', '\'')
}

/// Each text cleaned.
pub open spec fn cleaned_each(v: Seq<Seq<char>>) -> Seq<Seq<char>> {
    Seq::new(v.len(), |j: int| cleaned(v[j]))
}

/// Cleans each source and joins them in order.
pub fn clean_sources(contents: &Vec<String>) -> (r: String)
    ensures
        r@ == concat_all(cleaned_each(texts(contents@))),
{
    let mut parts: Vec<String> = Vec::new();
    let mut i: usize = 0;
    while i < contents.len()
        invariant
            i <= contents.len(),
            parts.len() == i,
            forall|j: int| 0 <= j < i ==> #[trigger] parts@[j]@ == cleaned(contents@[j]@),
        decreases contents.len() - i,
    {
        let c = clean_css(contents[i].as_str());
        parts.push(c);
        i += 1;
    }
    proof {
        assert(texts(parts@) =~= cleaned_each(texts(contents@)));
    }
    join_all(&parts)
}

} // verus!
