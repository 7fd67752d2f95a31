//! Table-of-contents generation: the size gate, then extraction, level selection and
//! rendering.
use crate::headings::{extracted, headings_from_events, heading_views, HeadingView};
use crate::markdown::{events_view, markdown_events, parse_events, EventView, MdEvent};
use crate::outline::{deepest_fit, find_optimal_level, fits, optimal_level, rendered};
use crate::text::byte_len;
use vstd::prelude::*;
use vstd::string::StringSliceAdditionalSpecFns;

verus! {

/// Configuration of table-of-contents generation; both sizes are in bytes.
#[derive(Clone, Copy, Debug, PartialEq)]
pub struct TocConfig {
    /// Largest size of a generated table of contents (default 4000).
    pub toc_budget: usize,
    /// Smallest document size for which a table of contents is generated (default 8000).
    pub full_content_threshold: usize,
}

impl Default for TocConfig {
    fn default() -> (r: Self)
        ensures
            r.toc_budget == 4000,
            r.full_content_threshold == 8000,
    {
        TocConfig { toc_budget: 4000, full_content_threshold: 8000 }
    }
}

/// The table of contents of a document with bytes `b` and parser events `events`, gated on
/// the size hint `total_bytes`: nothing below the threshold, nothing without headings,
/// otherwise the outline at the deepest level that fits the budget, if one does.
pub open spec fn toc_for(b: Seq<u8>, events: Seq<EventView>, total_bytes: nat, config: TocConfig) -> Option<
    Seq<char>,
> {
    if total_bytes < config.full_content_threshold {
        None
    } else {
        let hs = extracted(b, events);
        if hs.len() == 0 {
            None
        } else {
            match optimal_level(hs, config.toc_budget as nat) {
                Some(level) => Some(rendered(hs, level)),
                None => None,
            }
        }
    }
}

/// The characters of a generated table of contents, if any.
pub open spec fn toc_view(r: Option<String>) -> Option<Seq<char>> {
    match r {
        Some(toc) => Some(toc@),
        None => None,
    }
}

/// The level that `deepest_fit` picks lies in range and fits.
pub proof fn lemma_deepest_fit_fits(hs: Seq<HeadingView>, budget: nat, top: u8)
    ensures
        deepest_fit(hs, budget, top) matches Some(level) ==> 1 <= level <= top && fits(
            hs,
            level,
            budget,
        ),
    decreases top,
{
    if top > 0 && !fits(hs, top, budget) {
        lemma_deepest_fit_fits(hs, budget, (top - 1) as u8);
    }
}

/// The table of contents of `markdown`, whose parser events are `events`, for the size hint
/// `total_bytes`.
pub fn toc_from_events(markdown: &str, events: &Vec<MdEvent>, total_bytes: usize, config: &TocConfig) -> (r:
    Option<String>)
    requires
        markdown.spec_bytes().len() <= isize::MAX,
    ensures
        toc_view(r) == toc_for(markdown.spec_bytes(), events_view(events@), total_bytes as nat, *config),
        total_bytes < config.full_content_threshold ==> r is None,
        r matches Some(toc) ==> 0 < byte_len(toc@) <= config.toc_budget,
{
    if total_bytes < config.full_content_threshold {
        return None;
    }
    let headings = headings_from_events(markdown, events);
    if headings.len() == 0 {
        return None;
    }
    let ghost hv = heading_views(headings@);
    proof {
        lemma_deepest_fit_fits(hv, config.toc_budget as nat, crate::outline::max_level(hv));
    }
    match find_optimal_level(headings.as_slice(), config.toc_budget) {
        Some((_level, toc)) => {
            proof {
                crate::text::lemma_encode_empty(toc@);
            }
            Some(toc)
        },
        None => None,
    }
}

/// Generates the table of contents of `markdown`: `None` where the size hint `total_bytes`
/// is below the threshold, where there are no headings, or where no heading level fits the
/// budget; otherwise one line per heading down to the deepest level that fits, each with its
/// line number right-aligned and an arrow before the heading text.
pub fn generate_toc(markdown: &str, total_bytes: usize, config: &TocConfig) -> (r: Option<String>)
    requires
        markdown.spec_bytes().len() <= isize::MAX,
    ensures
        toc_view(r) == toc_for(
            markdown.spec_bytes(),
            markdown_events(markdown@),
            total_bytes as nat,
            *config,
        ),
        total_bytes < config.full_content_threshold ==> r is None,
        r matches Some(toc) ==> 0 < byte_len(toc@) <= config.toc_budget,
{
    if total_bytes < config.full_content_threshold {
        return None;
    }
    let events = parse_events(markdown);
    toc_from_events(markdown, &events, total_bytes, config)
}

/// Generation is a function of its inputs: two runs on the same document, size hint and
/// configuration give byte-identical results.
pub proof fn law_repeatable(
    markdown: &str,
    total_bytes: usize,
    config: TocConfig,
    first: Option<String>,
    second: Option<String>,
)
    requires
        toc_view(first) == toc_for(
            markdown.spec_bytes(),
            markdown_events(markdown@),
            total_bytes as nat,
            config,
        ),
        toc_view(second) == toc_for(
            markdown.spec_bytes(),
            markdown_events(markdown@),
            total_bytes as nat,
            config,
        ),
    ensures
        toc_view(first) == toc_view(second),
        first matches Some(a) ==> second matches Some(b) && vstd::utf8::encode_utf8(a@)
            == vstd::utf8::encode_utf8(b@),
{
}

} // verus!
