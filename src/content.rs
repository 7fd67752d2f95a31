//! How a fetched page is classified: its media type from the `Content-Type` header, and
//! the label reported for the cached file.
use crate::text::chars_of;
use crate::variations::{lower_of, lowercase};
use vstd::prelude::*;

verus! {

/// `needle` occurs in `hay` as a contiguous run.
pub open spec fn has_substring(hay: Seq<char>, needle: Seq<char>) -> bool {
    exists|i: int| 0 <= i <= hay.len() - needle.len() && #[trigger] hay.subrange(i, i + needle.len()) == needle
}

/// Whether `needle` occurs at offset `at` of `hay`.
fn occurs_at(hay: &Vec<char>, needle: &Vec<char>, at: usize) -> (r: bool)
    requires
        at + needle@.len() <= hay@.len(),
    ensures
        r == (hay@.subrange(at as int, at + needle@.len()) == needle@),
{
    let mut k: usize = 0;
    while k < needle.len()
        invariant
            hay.len() == hay@.len(),
            at + needle@.len() <= hay@.len(),
            k <= needle@.len(),
            forall|j: int| 0 <= j < k ==> hay@[at + j] == needle@[j],
        decreases needle@.len() - k,
    {
        if hay[at + k] != needle[k] {
            proof {
                assert(hay@.subrange(at as int, at + needle@.len())[k as int] != needle@[k as int]);
            }
            return false;
        }
        k = k + 1;
    }
    proof {
        assert(hay@.subrange(at as int, at + needle@.len()) =~= needle@);
    }
    true
}

/// Whether `needle` occurs in `hay`.
pub fn contains_str(hay: &str, needle: &str) -> (r: bool)
    ensures
        r == has_substring(hay@, needle@),
{
    let h = chars_of(hay);
    let n = chars_of(needle);
    if n.len() > h.len() {
        return false;
    }
    let last = h.len() - n.len();
    let mut at: usize = 0;
    while at <= last
        invariant
            h@ == hay@,
            n@ == needle@,
            last + n@.len() == h@.len(),
            at <= last,
            forall|i: int| 0 <= i < at ==> #[trigger] h@.subrange(i, i + n@.len()) != n@,
        decreases last - at,
    {
        if occurs_at(&h, &n, at) {
            return true;
        }
        if at == last {
            return false;
        }
        at = at + 1;
    }
    false
}

/// Whether a page with this `Content-Type` header is HTML, and whether it is Markdown
/// (`text/markdown` or `text/x-markdown`).
pub fn media_kind(content_type: &str) -> (r: (bool, bool))
    ensures
        r.0 == has_substring(content_type@, "text/html"@),
        r.1 == (has_substring(content_type@, "text/markdown"@) || has_substring(
            content_type@,
            "text/x-markdown"@,
        )),
{
    let is_html = contains_str(content_type, "text/html");
    let is_markdown = contains_str(content_type, "text/markdown") || contains_str(
        content_type,
        "text/x-markdown",
    );
    (is_html, is_markdown)
}

/// The label of a fetched file, from its lowercase URL `lower` and its media type.
pub open spec fn label_for(lower: Seq<char>, is_markdown: bool, is_html: bool) -> Seq<char> {
    if has_substring(lower, "/llms-full.txt"@) {
        "llms-full"@
    } else if has_substring(lower, "/llms.txt"@) {
        "llms"@
    } else if is_markdown {
        "markdown"@
    } else if is_html {
        "html-converted"@
    } else {
        "text"@
    }
}

/// The label of a fetched file whose lowercase URL is `lower`.
pub fn label_from(lower: &str, is_markdown: bool, is_html: bool) -> (r: &'static str)
    ensures
        r@ == label_for(lower@, is_markdown, is_html),
{
    if contains_str(lower, "/llms-full.txt") {
        "llms-full"
    } else if contains_str(lower, "/llms.txt") {
        "llms"
    } else if is_markdown {
        "markdown"
    } else if is_html {
        "html-converted"
    } else {
        "text"
    }
}

/// The label of a file fetched from `url`: `llms-full` or `llms` for those files, whatever
/// the case of the URL, else `markdown`, `html-converted` or `text` by media type.
pub fn content_label(url: &str, is_markdown: bool, is_html: bool) -> (r: &'static str)
    ensures
        r@ == label_for(lower_of(url@), is_markdown, is_html),
{
    let lower = lowercase(url);
    label_from(lower.as_str(), is_markdown, is_html)
}

} // verus!
