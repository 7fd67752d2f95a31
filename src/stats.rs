//! Line, word and character counts of a text.
use crate::text::{is_white_space, white_space};
use vstd::prelude::*;
use vstd::string::StrSliceExecFns;

verus! {

/// Number of line feeds in `s`.
pub open spec fn line_feeds(s: Seq<char>) -> nat
    decreases s.len(),
{
    if s.len() == 0 {
        0
    } else {
        line_feeds(s.drop_last()) + if s.last() == '\n' { 1nat } else { 0nat }
    }
}

/// Number of lines as `str::lines` yields them: one per line feed, plus a last line that
/// has no line feed after it.
pub open spec fn line_count(s: Seq<char>) -> nat {
    line_feeds(s) + if s.len() > 0 && s.last() != '\n' { 1nat } else { 0nat }
}

/// A word starts at `i`: a character that is not white space, first or after white space.
pub open spec fn starts_word(s: Seq<char>, i: int) -> bool {
    !is_white_space(s[i]) && (i == 0 || is_white_space(s[i - 1]))
}

/// Number of maximal runs of non-white-space characters, as `str::split_whitespace` yields
/// them.
pub open spec fn word_count(s: Seq<char>) -> nat
    decreases s.len(),
{
    if s.len() == 0 {
        0
    } else {
        word_count(s.drop_last()) + if starts_word(s, s.len() - 1) { 1nat } else { 0nat }
    }
}

proof fn lemma_line_feeds_bound(s: Seq<char>)
    ensures
        line_feeds(s) <= s.len(),
    decreases s.len(),
{
    if s.len() > 0 {
        lemma_line_feeds_bound(s.drop_last());
    }
}

/// The number of lines, words and characters of `content`.
pub fn count_stats(content: &str) -> (r: (usize, usize, usize))
    ensures
        r.0 == line_count(content@),
        r.1 == word_count(content@),
        r.2 == content@.len(),
{
    let characters = content.unicode_len();
    let mut feeds: usize = 0;
    let mut words: usize = 0;
    let mut after_space = true;
    let mut last_is_feed = false;
    for c in it: content.chars()
        invariant
            it.seq() == content@,
            characters == content@.len(),
            it.index() <= content@.len(),
            feeds == line_feeds(content@.take(it.index() as int)),
            words == word_count(content@.take(it.index() as int)),
            feeds <= it.index(),
            words <= it.index(),
            it.index() > 0 ==> after_space == is_white_space(content@[it.index() - 1]),
            it.index() == 0 ==> after_space,
            last_is_feed == (it.index() > 0 && content@[it.index() - 1] == '\n'),
    {
        let ghost k = it.index() as int;
        proof {
            let pre = content@.take(k + 1);
            assert(pre.drop_last() =~= content@.take(k));
            assert(pre.last() == c);
            if k > 0 {
                assert(pre[k - 1] == content@[k - 1]);
            }
        }
        if c == '\n' {
            feeds = feeds + 1;
        }
        let space = white_space(c);
        if !space && after_space {
            words = words + 1;
        }
        after_space = space;
        last_is_feed = c == '\n';
    }
    proof {
        assert(content@.take(content@.len() as int) =~= content@);
        if characters > 0 {
            lemma_line_feeds_bound(content@.drop_last());
        }
    }
    let lines = if characters > 0 && !last_is_feed {
        feeds + 1
    } else {
        feeds
    };
    (lines, words, characters)
}

} // verus!
