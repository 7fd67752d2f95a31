//! Heading extraction: one forward pass over parser events that rebuilds each heading's
//! source text, drops blank anchor links, and numbers lines incrementally.
use crate::markdown::{events_view, parse_events, markdown_events, levels_in_range, EventKind,
    EventKindView, EventView, MdEvent};
use crate::text::{can_slice, is_blank, is_empty_or_invisible, lemma_encode_concat,
    push_str, slice_str, trim, trim_ws};
use vstd::prelude::*;
use vstd::string::StringSliceAdditionalSpecFns;
use vstd::utf8::*;

verus! {

/// A heading extracted from Markdown.
#[derive(Debug, Clone, PartialEq)]
pub struct Heading {
    /// Heading level from 1 (H1) to 6 (H6).
    pub level: u8,
    /// 1-indexed line of the source on which the heading starts.
    pub line_number: usize,
    /// The heading's source text, markup included, without blank anchor links, trimmed.
    pub text: String,
}

pub struct HeadingView {
    pub level: u8,
    pub line_number: nat,
    pub text: Seq<char>,
}

impl View for Heading {
    type V = HeadingView;

    open spec fn view(&self) -> HeadingView {
        HeadingView { level: self.level, line_number: self.line_number as nat, text: self.text@ }
    }
}

pub open spec fn heading_views(hs: Seq<Heading>) -> Seq<HeadingView> {
    hs.map_values(|h: Heading| h@)
}

/// Number of line feeds in `b`.
pub open spec fn newline_count(b: Seq<u8>) -> nat
    decreases b.len(),
{
    if b.len() == 0 {
        0
    } else {
        newline_count(b.drop_last()) + if b.last() == 10u8 { 1nat } else { 0nat }
    }
}

/// The 1-indexed line of byte offset `pos` of `b`: one more than the line feeds before it.
/// Only `\n` counts, so a `\r` before it changes nothing; an offset past the end counts as
/// the end.
pub open spec fn line_at(b: Seq<u8>, pos: int) -> nat {
    1 + newline_count(b.take(if pos < b.len() { pos } else { b.len() as int }))
}

/// A link opened inside the open heading: where it starts, and whether all the visible text
/// seen inside it so far is blank.
pub struct LinkScan {
    pub start: usize,
    pub blank: bool,
}

/// The heading being read: its level, first byte, line, the byte ranges of the blank links
/// closed in it so far, and the link currently open in it.
pub struct HeadingScan {
    pub level: u8,
    pub start: usize,
    pub line: nat,
    pub excluded: Seq<(usize, usize)>,
    pub link: Option<LinkScan>,
}

/// The state of the pass: the headings emitted, the heading open, and the furthest event
/// start seen.
pub struct ScanState {
    pub headings: Seq<HeadingView>,
    pub open: Option<HeadingScan>,
    pub last_pos: usize,
}

/// The bytes `start..end` of `b`, or nothing where that range cannot be sliced.
pub open spec fn heading_bytes(b: Seq<u8>, start: usize, end: usize) -> Seq<u8> {
    if can_slice(b, start as int, end as int) {
        b.subrange(start as int, end as int)
    } else {
        Seq::empty()
    }
}

/// Offset of `x` from `base`, 0 below it.
pub open spec fn offset_from(x: usize, base: usize) -> int {
    if x > base {
        x - base
    } else {
        0
    }
}

/// Copying `full` (which starts at byte `base` of the document) while skipping the excluded
/// ranges in turn: the bytes kept before the last skipped range, and where copying resumes.
/// A range that is empty or runs past `full` is ignored; a gap that cannot be sliced on
/// character boundaries is left out.
pub open spec fn cut(full: Seq<u8>, base: usize, excluded: Seq<(usize, usize)>) -> (Seq<u8>, int)
    decreases excluded.len(),
{
    if excluded.len() == 0 {
        (Seq::empty(), 0)
    } else {
        let prev = cut(full, base, excluded.drop_last());
        let from = offset_from(excluded.last().0, base);
        let to = offset_from(excluded.last().1, base);
        if from >= to || to > full.len() {
            prev
        } else if prev.1 < from && can_slice(full, prev.1, from) {
            (prev.0 + full.subrange(prev.1, from), to)
        } else {
            (prev.0, to)
        }
    }
}

/// The bytes of `full` outside the excluded ranges.
pub open spec fn kept_bytes(full: Seq<u8>, base: usize, excluded: Seq<(usize, usize)>) -> Seq<u8> {
    let (text, last) = cut(full, base, excluded);
    if last < full.len() && can_slice(full, last, full.len() as int) {
        text + full.subrange(last, full.len() as int)
    } else {
        text
    }
}

/// The text of heading `h` of document bytes `b` when it closes at byte `end`.
pub open spec fn heading_text(b: Seq<u8>, h: HeadingScan, end: usize) -> Seq<char> {
    trim_ws(decode_utf8(kept_bytes(heading_bytes(b, h.start, end), h.start, h.excluded)))
}

/// One event of the pass over document bytes `b`.
pub open spec fn scan_step(b: Seq<u8>, s0: ScanState, e: EventView) -> ScanState {
    let pos = if e.start > s0.last_pos { e.start } else { s0.last_pos };
    let s = ScanState { headings: s0.headings, open: s0.open, last_pos: pos };
    match e.kind {
        EventKindView::HeadingStart(level) => ScanState {
            open: Some(
                HeadingScan {
                    level,
                    start: e.start,
                    line: line_at(b, pos as int),
                    excluded: Seq::empty(),
                    link: None,
                },
            ),
            ..s
        },
        EventKindView::LinkStart => match s.open {
            Some(h) => ScanState {
                open: Some(HeadingScan { link: Some(LinkScan { start: e.start, blank: true }), ..h }),
                ..s
            },
            None => s,
        },
        EventKindView::Text(t) => match s.open {
            Some(h) => match h.link {
                Some(l) => ScanState {
                    open: Some(
                        HeadingScan {
                            link: Some(LinkScan { start: l.start, blank: l.blank && is_blank(t) }),
                            ..h
                        },
                    ),
                    ..s
                },
                None => s,
            },
            None => s,
        },
        EventKindView::LinkEnd => match s.open {
            Some(h) => match h.link {
                Some(l) => ScanState {
                    open: Some(
                        HeadingScan {
                            link: None,
                            excluded: if l.blank {
                                h.excluded.push((l.start, e.end))
                            } else {
                                h.excluded
                            },
                            ..h
                        },
                    ),
                    ..s
                },
                None => s,
            },
            None => s,
        },
        EventKindView::HeadingEnd => match s.open {
            Some(h) => {
                let text = heading_text(b, h, e.end);
                ScanState {
                    headings: if text.len() > 0 {
                        s.headings.push(
                            HeadingView { level: h.level, line_number: h.line, text },
                        )
                    } else {
                        s.headings
                    },
                    open: None,
                    ..s
                }
            },
            None => s,
        },
        EventKindView::Other => s,
    }
}

/// The pass over the events, from the start of the document.
pub open spec fn scan(b: Seq<u8>, events: Seq<EventView>) -> ScanState
    decreases events.len(),
{
    if events.len() == 0 {
        ScanState { headings: Seq::empty(), open: None, last_pos: 0 }
    } else {
        scan_step(b, scan(b, events.drop_last()), events.last())
    }
}

/// The headings that the events of document bytes `b` describe, in document order.
pub open spec fn extracted(b: Seq<u8>, events: Seq<EventView>) -> Seq<HeadingView> {
    scan(b, events).headings
}

/// Line feeds add up over concatenation.
pub proof fn lemma_newline_count_concat(a: Seq<u8>, c: Seq<u8>)
    ensures
        newline_count(a + c) == newline_count(a) + newline_count(c),
    decreases c.len(),
{
    if c.len() == 0 {
        assert(a + c =~= a);
    } else {
        assert((a + c).drop_last() =~= a + c.drop_last());
        lemma_newline_count_concat(a, c.drop_last());
    }
}

/// There are no more line feeds than bytes.
pub proof fn lemma_newline_count_bound(b: Seq<u8>)
    ensures
        newline_count(b) <= b.len(),
    decreases b.len(),
{
    if b.len() > 0 {
        lemma_newline_count_bound(b.drop_last());
    }
}

/// Counts the line feeds among bytes `from..to`.
fn count_newlines(bytes: &[u8], from: usize, to: usize) -> (r: usize)
    requires
        from <= to <= bytes@.len(),
    ensures
        r == newline_count(bytes@.subrange(from as int, to as int)),
{
    let mut count: usize = 0;
    let mut k: usize = from;
    while k < to
        invariant
            from <= k <= to <= bytes@.len(),
            count == newline_count(bytes@.subrange(from as int, k as int)),
        decreases to - k,
    {
        proof {
            assert(bytes@.subrange(from as int, k + 1).drop_last() =~= bytes@.subrange(
                from as int,
                k as int,
            ));
            lemma_newline_count_bound(bytes@.subrange(from as int, k as int));
        }
        if bytes[k] == 10u8 {
            count = count + 1;
        }
        k = k + 1;
    }
    count
}

/// The text of the heading of `markdown` that spans bytes `start..end`: its source with
/// the excluded ranges left out, trimmed.
fn heading_source_text(markdown: &str, start: usize, end: usize, excluded: &Vec<(usize, usize)>) -> (r:
    String)
    ensures
        r@ == trim_ws(
            decode_utf8(
                kept_bytes(heading_bytes(markdown.spec_bytes(), start, end), start, excluded@),
            ),
        ),
{
    proof {
        reveal_strlit("");
    }
    let full: &str = match slice_str(markdown, start, end) {
        Some(t) => t,
        None => "",
    };
    let ghost fb = full.spec_bytes();
    assert(fb == heading_bytes(markdown.spec_bytes(), start, end));
    let flen = full.as_bytes().len();
    let mut text = String::new();
    let mut last_end: usize = 0;
    let mut k: usize = 0;
    while k < excluded.len()
        invariant
            k <= excluded@.len(),
            fb == full.spec_bytes(),
            flen == fb.len(),
            cut(fb, start, excluded@.take(k as int)) == (encode_utf8(text@), last_end as int),
        decreases excluded.len() - k,
    {
        let (rs, re) = excluded[k];
        proof {
            assert(excluded@.take(k + 1).drop_last() =~= excluded@.take(k as int));
        }
        let from: usize = if rs > start { rs - start } else { 0 };
        let to: usize = if re > start { re - start } else { 0 };
        if from < to && to <= flen {
            if last_end < from {
                match slice_str(full, last_end, from) {
                    Some(piece) => {
                        let ghost before = text@;
                        push_str(&mut text, piece);
                        proof {
                            lemma_encode_concat(before, piece@);
                        }
                    },
                    None => {},
                }
            }
            last_end = to;
        }
        k = k + 1;
    }
    proof {
        assert(excluded@.take(excluded@.len() as int) =~= excluded@);
    }
    if last_end < flen {
        match slice_str(full, last_end, flen) {
            Some(rest) => {
                let ghost before = text@;
                push_str(&mut text, rest);
                proof {
                    lemma_encode_concat(before, rest@);
                }
            },
            None => {},
        }
    }
    proof {
        encode_utf8_decode_utf8(text@);
    }
    trim(text.as_str()).to_owned()
}

struct OpenLink {
    start: usize,
    blank: bool,
}

struct OpenHeading {
    level: u8,
    start: usize,
    line_number: usize,
    excluded: Vec<(usize, usize)>,
    link: Option<OpenLink>,
}

spec fn open_view(o: Option<OpenHeading>) -> Option<HeadingScan> {
    match o {
        Some(h) => Some(
            HeadingScan {
                level: h.level,
                start: h.start,
                line: h.line_number as nat,
                excluded: h.excluded@,
                link: match h.link {
                    Some(l) => Some(LinkScan { start: l.start, blank: l.blank }),
                    None => None,
                },
            },
        ),
        None => None,
    }
}

/// A heading as the pass emits it: on a line numbered from 1, with text; and with a level
/// from 1 to 6 where the events give only such levels.
pub open spec fn well_formed(h: HeadingView, levels_ok: bool) -> bool {
    h.line_number >= 1 && h.text.len() > 0 && (levels_ok ==> 1 <= h.level <= 6)
}

/// Every heading the pass emits is well formed, and so is the heading it holds open.
pub proof fn lemma_scan_well_formed(b: Seq<u8>, events: Seq<EventView>)
    ensures
        forall|i: int|
            0 <= i < scan(b, events).headings.len() ==> well_formed(
                #[trigger] scan(b, events).headings[i],
                levels_in_range(events),
            ),
        scan(b, events).open matches Some(h) ==> h.line >= 1 && (levels_in_range(events) ==> 1
            <= h.level <= 6),
    decreases events.len(),
{
    if events.len() > 0 {
        let prefix = events.drop_last();
        lemma_scan_well_formed(b, prefix);
        if levels_in_range(events) {
            assert forall|i: int| 0 <= i < prefix.len() implies match #[trigger] prefix[i].kind {
                EventKindView::HeadingStart(level) => 1 <= level <= 6,
                _ => true,
            } by {
                assert(prefix[i] == events[i]);
            }
            assert(events[events.len() - 1] == events.last());
        }
    }
}

/// The headings that `events`, parser events over `markdown`, describe, in document order.
pub fn headings_from_events(markdown: &str, events: &Vec<MdEvent>) -> (r: Vec<Heading>)
    requires
        markdown.spec_bytes().len() <= isize::MAX,
    ensures
        heading_views(r@) == extracted(markdown.spec_bytes(), events_view(events@)),
        forall|i: int|
            0 <= i < r@.len() ==> #[trigger] r@[i].line_number >= 1 && r@[i].text@.len() > 0,
{
    let bytes = markdown.as_bytes();
    let ghost b = markdown.spec_bytes();
    let ghost evs = events_view(events@);
    let mut headings: Vec<Heading> = Vec::new();
    let mut current: Option<OpenHeading> = None;
    let mut current_line: usize = 1;
    let mut last_pos: usize = 0;
    let mut i: usize = 0;
    proof {
        assert(heading_views(headings@) =~= Seq::empty());
        assert(evs.take(0) =~= Seq::empty());
    }
    while i < events.len()
        invariant
            bytes@ == b,
            b == markdown.spec_bytes(),
            b.len() <= isize::MAX,
            evs == events_view(events@),
            i <= events@.len(),
            scan(b, evs.take(i as int)) == (ScanState {
                headings: heading_views(headings@),
                open: open_view(current),
                last_pos,
            }),
            current_line == line_at(b, last_pos as int),
        decreases events.len() - i,
    {
        let event = &events[i];
        proof {
            assert(evs.take(i + 1).drop_last() =~= evs.take(i as int));
            assert(evs.take(i + 1).last() == event@);
        }
        if event.start > last_pos {
            let n = bytes.len();
            let from: usize = if last_pos < n { last_pos } else { n };
            let to: usize = if event.start < n { event.start } else { n };
            let added = count_newlines(bytes, from, to);
            proof {
                assert(b.take(to as int) =~= b.take(from as int) + b.subrange(from as int, to as int));
                lemma_newline_count_concat(b.take(from as int), b.subrange(from as int, to as int));
                lemma_newline_count_bound(b.take(to as int));
            }
            current_line = current_line + added;
            last_pos = event.start;
        }
        match &event.kind {
            EventKind::HeadingStart(level) => {
                current = Some(
                    OpenHeading {
                        level: *level,
                        start: event.start,
                        line_number: current_line,
                        excluded: Vec::new(),
                        link: None,
                    },
                );
            },
            EventKind::LinkStart => {
                current = match current {
                    Some(h) => Some(
                        OpenHeading { link: Some(OpenLink { start: event.start, blank: true }), ..h },
                    ),
                    None => None,
                };
            },
            EventKind::Text(t) => {
                current = match current {
                    Some(h) => match h.link {
                        Some(l) => {
                            let blank = l.blank && is_empty_or_invisible(t.as_str());
                            Some(OpenHeading { link: Some(OpenLink { start: l.start, blank }), ..h })
                        },
                        None => Some(h),
                    },
                    None => None,
                };
            },
            EventKind::LinkEnd => {
                current = match current {
                    Some(h) => match h.link {
                        Some(l) => {
                            let mut excluded = h.excluded;
                            if l.blank {
                                excluded.push((l.start, event.end));
                            }
                            Some(OpenHeading { link: None, excluded, ..h })
                        },
                        None => Some(h),
                    },
                    None => None,
                };
            },
            EventKind::HeadingEnd => {
                match current {
                    Some(h) => {
                        let text = heading_source_text(markdown, h.start, event.end, &h.excluded);
                        if !text.as_str().is_empty() {
                            let ghost before = headings@;
                            headings.push(
                                Heading { level: h.level, line_number: h.line_number, text },
                            );
                            proof {
                                assert(heading_views(headings@) =~= heading_views(before).push(
                                    headings@.last()@,
                                ));
                            }
                        }
                    },
                    None => {},
                }
                current = None;
            },
            EventKind::Other => {},
        }
        i = i + 1;
    }
    proof {
        assert(evs.take(events@.len() as int) =~= evs);
        lemma_scan_well_formed(b, evs);
        assert forall|i: int| 0 <= i < headings@.len() implies #[trigger] headings@[i].line_number
            >= 1 && headings@[i].text@.len() > 0 by {
            assert(heading_views(headings@)[i] == headings@[i]@);
            assert(well_formed(scan(b, evs).headings[i], levels_in_range(evs)));
        }
    }
    headings
}

/// The headings of `markdown`, in document order, as a CommonMark parser finds them.
pub fn extract_headings(markdown: &str) -> (r: Vec<Heading>)
    requires
        markdown.spec_bytes().len() <= isize::MAX,
    ensures
        heading_views(r@) == extracted(markdown.spec_bytes(), markdown_events(markdown@)),
        forall|i: int|
            0 <= i < r@.len() ==> 1 <= #[trigger] r@[i].level <= 6 && r@[i].line_number >= 1
                && r@[i].text@.len() > 0,
{
    let events = parse_events(markdown);
    let r = headings_from_events(markdown, &events);
    proof {
        let b = markdown.spec_bytes();
        let evs = events_view(events@);
        lemma_scan_well_formed(b, evs);
        assert forall|i: int| 0 <= i < r@.len() implies 1 <= #[trigger] r@[i].level <= 6
            && r@[i].line_number >= 1 && r@[i].text@.len() > 0 by {
            assert(heading_views(r@)[i] == r@[i]@);
            assert(well_formed(scan(b, evs).headings[i], levels_in_range(evs)));
        }
    }
    r
}

/// `b` without its carriage returns.
pub open spec fn without_cr(b: Seq<u8>) -> Seq<u8>
    decreases b.len(),
{
    if b.len() == 0 {
        Seq::empty()
    } else if b.last() == 13u8 {
        without_cr(b.drop_last())
    } else {
        without_cr(b.drop_last()).push(b.last())
    }
}

proof fn lemma_newline_count_without_cr(b: Seq<u8>)
    ensures
        newline_count(without_cr(b)) == newline_count(b),
    decreases b.len(),
{
    if b.len() > 0 {
        lemma_newline_count_without_cr(b.drop_last());
        let r = without_cr(b.drop_last());
        assert(r.push(b.last()).drop_last() =~= r);
    }
}

/// Line numbers start at 1 and do not depend on carriage returns: two offsets whose
/// preceding bytes agree once carriage returns are removed, as in the CRLF and LF forms of
/// one document, are on the same line.
pub proof fn law_lines_ignore_carriage_returns(doc_a: Seq<u8>, pos_a: int, doc_b: Seq<u8>, pos_b: int)
    requires
        0 <= pos_a <= doc_a.len(),
        0 <= pos_b <= doc_b.len(),
        without_cr(doc_a.take(pos_a)) == without_cr(doc_b.take(pos_b)),
    ensures
        line_at(doc_a, pos_a) == line_at(doc_b, pos_b),
        line_at(doc_a, pos_a) >= 1,
{
    lemma_newline_count_without_cr(doc_a.take(pos_a));
    lemma_newline_count_without_cr(doc_b.take(pos_b));
}

/// A heading with no excluded link keeps its whole source, links with their bracket and
/// parenthesis syntax included.
pub proof fn law_no_exclusion_keeps_source(full: Seq<u8>, base: usize)
    requires
        valid_utf8(full),
    ensures
        kept_bytes(full, base, Seq::empty()) == full,
{
    is_char_boundary_start_end_of_seq(full);
    assert(full.subrange(0, full.len() as int) =~= full);
    assert(Seq::<u8>::empty() + full =~= full);
}

/// An excluded link is removed as a substring: what comes before and after it is kept as it
/// stands, with nothing put in its place.
pub proof fn law_exclusion_removes_substring(full: Seq<u8>, base: usize, start: usize, end: usize)
    requires
        valid_utf8(full),
        base <= start < end,
        end - base <= full.len(),
        is_char_boundary(full, start - base),
        is_char_boundary(full, end - base),
    ensures
        kept_bytes(full, base, seq![(start, end)]) == full.subrange(0, start - base)
            + full.subrange(end - base, full.len() as int),
{
    is_char_boundary_start_end_of_seq(full);
    let excluded = seq![(start, end)];
    assert(excluded.drop_last() =~= Seq::empty());
    let from = start - base;
    let to = end - base;
    assert(offset_from(start, base) == from);
    assert(offset_from(end, base) == to);
    assert(cut(full, base, excluded.drop_last()) == (Seq::<u8>::empty(), 0int));
    assert(excluded.last() == (start, end));
    if from == 0 {
        assert(full.subrange(0, 0) =~= Seq::empty());
        assert(cut(full, base, excluded) == (Seq::<u8>::empty(), to as int));
    } else {
        assert(can_slice(full, 0, from as int));
        assert(Seq::<u8>::empty() + full.subrange(0, from as int) =~= full.subrange(0, from as int));
        assert(cut(full, base, excluded) == (full.subrange(0, from as int), to as int));
    }
    if to == full.len() {
        assert(full.subrange(to, full.len() as int) =~= Seq::empty());
    }
    assert(Seq::<u8>::empty() + full.subrange(to, full.len() as int) =~= full.subrange(
        to,
        full.len() as int,
    ));
}

/// Links are classified by their visible text: inside an open heading, text in an open link
/// keeps it blank only while that text is blank, and closing the link excludes its byte
/// range exactly when it stayed blank; a link with visible text stays in the heading.
pub proof fn law_blank_links_excluded(b: Seq<u8>, s: ScanState, e: EventView)
    requires
        s.open matches Some(h) && h.link is Some,
    ensures
        e.kind matches EventKindView::Text(t) ==> scan_step(b, s, e).open.unwrap().link.unwrap().blank
            == (s.open.unwrap().link.unwrap().blank && is_blank(t)),
        e.kind is LinkEnd ==> scan_step(b, s, e).open.unwrap().link is None && scan_step(
            b,
            s,
            e,
        ).open.unwrap().excluded == if s.open.unwrap().link.unwrap().blank {
            s.open.unwrap().excluded.push((s.open.unwrap().link.unwrap().start, e.end))
        } else {
            s.open.unwrap().excluded
        },
{
}

} // verus!
