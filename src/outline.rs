//! Rendering headings as a line-numbered outline, and choosing the deepest heading level
//! whose outline fits a byte budget.
use crate::headings::{heading_views, Heading, HeadingView};
use crate::text::{byte_len, lemma_encode_concat, push_char, push_str};
use vstd::prelude::*;
use vstd::string::StringSliceAdditionalSpecFns;
use vstd::utf8::*;

verus! {

/// The decimal digit for `d`.
pub open spec fn digit_char(d: nat) -> char {
    seq!['0', '1', '2', '3', '4', '5', '6', '7', '8', '9'][d as int]
}

/// The decimal numeral of `n`, without leading zeros.
pub open spec fn decimal(n: nat) -> Seq<char>
    decreases n,
{
    if n < 10 {
        seq![digit_char(n)]
    } else {
        decimal(n / 10).push(digit_char(n % 10))
    }
}

/// `n` spaces.
pub open spec fn spaces(n: nat) -> Seq<char> {
    Seq::new(n, |_i: int| ' ')
}

/// `s` right-aligned in a field of `width` characters, padded with spaces.
pub open spec fn pad_left(s: Seq<char>, width: nat) -> Seq<char> {
    if s.len() < width {
        spaces((width - s.len()) as nat) + s
    } else {
        s
    }
}

/// One outline line: the line number right-aligned to `width`, an arrow, the heading text.
pub open spec fn outline_line(h: HeadingView, width: nat) -> Seq<char> {
    pad_left(decimal(h.line_number), width) + seq!['→'] + h.text
}

/// The headings of level at most `max_level`, in order.
pub open spec fn selected(hs: Seq<HeadingView>, max_level: u8) -> Seq<HeadingView>
    decreases hs.len(),
{
    if hs.len() == 0 {
        Seq::empty()
    } else if hs.last().level <= max_level {
        selected(hs.drop_last(), max_level).push(hs.last())
    } else {
        selected(hs.drop_last(), max_level)
    }
}

/// The width of the line-number column: the digits of the last line number, at least 3.
pub open spec fn column_width(hs: Seq<HeadingView>) -> nat {
    let digits = decimal(hs.last().line_number).len();
    if digits > 3 {
        digits
    } else {
        3
    }
}

/// The outline lines of `hs`, joined by single line feeds, with no trailing line feed.
pub open spec fn joined_lines(hs: Seq<HeadingView>, width: nat) -> Seq<char>
    decreases hs.len(),
{
    if hs.len() == 0 {
        Seq::empty()
    } else if hs.len() == 1 {
        outline_line(hs[0], width)
    } else {
        joined_lines(hs.drop_last(), width) + seq!['\n'] + outline_line(hs.last(), width)
    }
}

/// The outline of the headings of level at most `max_level`; empty where there are none.
pub open spec fn rendered(hs: Seq<HeadingView>, max_level: u8) -> Seq<char> {
    let shown = selected(hs, max_level);
    if shown.len() == 0 {
        Seq::empty()
    } else {
        joined_lines(shown, column_width(shown))
    }
}

/// Appends the decimal numeral of `n`.
fn push_decimal(s: &mut String, n: usize)
    ensures
        final(s)@ == old(s)@ + decimal(n as nat),
    decreases n,
{
    let digits = ['0', '1', '2', '3', '4', '5', '6', '7', '8', '9'];
    if n >= 10 {
        push_decimal(s, n / 10);
    }
    push_char(s, digits[n % 10]);
    proof {
        assert(digits@ =~= seq!['0', '1', '2', '3', '4', '5', '6', '7', '8', '9']);
        assert(s@ =~= old(s)@ + decimal(n as nat));
    }
}

/// The number of digits in the decimal numeral of `n`.
fn decimal_len(n: usize) -> (r: usize)
    ensures
        r == decimal(n as nat).len(),
    decreases n,
{
    if n >= 10 {
        proof {
            lemma_decimal_len_bound((n / 10) as nat);
        }
        decimal_len(n / 10) + 1
    } else {
        1
    }
}

proof fn lemma_decimal_len_bound(n: nat)
    ensures
        1 <= decimal(n).len() <= n + 1,
    decreases n,
{
    if n >= 10 {
        lemma_decimal_len_bound(n / 10);
    }
}

/// Appends the outline line of `h` for a number column of `width`.
fn push_outline_line(out: &mut String, h: &Heading, width: usize)
    ensures
        final(out)@ == old(out)@ + outline_line(h@, width as nat),
{
    let digits = decimal_len(h.line_number);
    let mut k: usize = digits;
    while k < width
        invariant
            k == digits || (digits < k <= width),
            out@ == old(out)@ + spaces((k - digits) as nat),
        decreases width - k,
    {
        push_char(out, ' ');
        proof {
            assert(out@ =~= old(out)@ + spaces((k + 1 - digits) as nat));
        }
        k = k + 1;
    }
    let ghost num = decimal(h.line_number as nat);
    proof {
        if digits < width {
            assert(k == width);
        } else {
            assert(spaces((k - digits) as nat) =~= Seq::empty());
        }
        assert(out@ + num =~= old(out)@ + pad_left(num, width as nat));
    }
    push_decimal(out, h.line_number);
    push_char(out, '→');
    push_str(out, h.text.as_str());
    proof {
        assert(out@ =~= old(out)@ + pad_left(num, width as nat) + seq!['→'] + h.text@);
        assert(out@ =~= old(out)@ + outline_line(h@, width as nat));
    }
}

/// Renders the headings of level at most `max_level` as an outline: one line per heading,
/// its line number right-aligned to the column width, an arrow, then its text; lines
/// joined by line feeds. Empty where no heading is that shallow.
pub fn render_toc(headings: &[Heading], max_level: u8) -> (r: String)
    ensures
        r@ == rendered(heading_views(headings@), max_level),
{
    let ghost hv = heading_views(headings@);
    let mut last: Option<usize> = None;
    let mut i: usize = 0;
    while i < headings.len()
        invariant
            i <= headings@.len(),
            hv == heading_views(headings@),
            match last {
                None => selected(hv.take(i as int), max_level).len() == 0,
                Some(n) => selected(hv.take(i as int), max_level).len() > 0 && selected(
                    hv.take(i as int),
                    max_level,
                ).last().line_number == n,
            },
        decreases headings@.len() - i,
    {
        proof {
            assert(hv.take(i + 1).drop_last() =~= hv.take(i as int));
        }
        if headings[i].level <= max_level {
            last = Some(headings[i].line_number);
        }
        i = i + 1;
    }
    proof {
        assert(hv.take(headings@.len() as int) =~= hv);
    }
    match last {
        None => String::new(),
        Some(n) => {
            let digits = decimal_len(n);
            let width: usize = if digits > 3 {
                digits
            } else {
                3
            };
            let ghost shown = selected(hv, max_level);
            assert(width == column_width(shown));
            let mut out = String::new();
            let mut any = false;
            let mut j: usize = 0;
            while j < headings.len()
                invariant
                    j <= headings@.len(),
                    hv == heading_views(headings@),
                    any == (selected(hv.take(j as int), max_level).len() > 0),
                    out@ == joined_lines(selected(hv.take(j as int), max_level), width as nat),
                decreases headings@.len() - j,
            {
                proof {
                    assert(hv.take(j + 1).drop_last() =~= hv.take(j as int));
                }
                let h = &headings[j];
                let ghost sel = selected(hv.take(j as int), max_level);
                proof {
                    assert(hv[j as int] == h@);
                    assert(sel.push(h@).drop_last() =~= sel);
                }
                if h.level <= max_level {
                    if any {
                        push_char(&mut out, '\n');
                    }
                    push_outline_line(&mut out, h, width);
                    any = true;
                }
                j = j + 1;
            }
            proof {
                assert(hv.take(headings@.len() as int) =~= hv);
            }
            out
        },
    }
}

/// The deepest heading level present; 0 where there are no headings.
pub open spec fn max_level(hs: Seq<HeadingView>) -> u8
    decreases hs.len(),
{
    if hs.len() == 0 {
        0
    } else if hs.last().level > max_level(hs.drop_last()) {
        hs.last().level
    } else {
        max_level(hs.drop_last())
    }
}

/// The outline down to `level` is not empty and its UTF-8 encoding takes at most `budget`
/// bytes.
pub open spec fn fits(hs: Seq<HeadingView>, level: u8, budget: nat) -> bool {
    rendered(hs, level).len() > 0 && byte_len(rendered(hs, level)) <= budget
}

/// The deepest level from 1 to `top` whose outline fits the budget.
pub open spec fn deepest_fit(hs: Seq<HeadingView>, budget: nat, top: u8) -> Option<u8>
    decreases top,
{
    if top == 0 {
        None
    } else if fits(hs, top, budget) {
        Some(top)
    } else {
        deepest_fit(hs, budget, (top - 1) as u8)
    }
}

/// The deepest level, up to the deepest present, whose outline fits the budget.
pub open spec fn optimal_level(hs: Seq<HeadingView>, budget: nat) -> Option<u8> {
    deepest_fit(hs, budget, max_level(hs))
}

/// Picks the deepest heading level whose outline fits within `budget` bytes, with that
/// outline. Every level from 1 to the deepest present is tried, since a deeper outline can be
/// smaller than a shallower one. `None` where no level fits.
pub fn find_optimal_level(headings: &[Heading], budget: usize) -> (r: Option<(u8, String)>)
    ensures
        match r {
            None => optimal_level(heading_views(headings@), budget as nat) is None,
            Some((level, toc)) => optimal_level(heading_views(headings@), budget as nat) == Some(
                level,
            ) && toc@ == rendered(heading_views(headings@), level),
        },
{
    let ghost hv = heading_views(headings@);
    if headings.len() == 0 {
        return None;
    }
    let mut max: u8 = 0;
    let mut i: usize = 0;
    while i < headings.len()
        invariant
            i <= headings@.len(),
            hv == heading_views(headings@),
            max == max_level(hv.take(i as int)),
        decreases headings@.len() - i,
    {
        proof {
            assert(hv.take(i + 1).drop_last() =~= hv.take(i as int));
        }
        if headings[i].level > max {
            max = headings[i].level;
        }
        i = i + 1;
    }
    proof {
        assert(hv.take(headings@.len() as int) =~= hv);
    }
    let mut best: Option<(u8, String)> = None;
    let mut level: u16 = 1;
    while level <= max as u16
        invariant
            1 <= level <= max + 1,
            hv == heading_views(headings@),
            max == max_level(hv),
            match best {
                None => deepest_fit(hv, budget as nat, (level - 1) as u8) is None,
                Some((l, toc)) => deepest_fit(hv, budget as nat, (level - 1) as u8) == Some(l)
                    && toc@ == rendered(hv, l),
            },
        decreases max + 1 - level,
    {
        let toc = render_toc(headings, level as u8);
        if !toc.as_str().is_empty() {
            let size = toc.as_str().as_bytes().len();
            if size <= budget {
                best = Some((level as u8, toc));
            }
        }
        level = level + 1;
    }
    best
}

proof fn lemma_deepest_fit_monotone(hs: Seq<HeadingView>, small: nat, large: nat, top: u8)
    requires
        small <= large,
    ensures
        deepest_fit(hs, small, top) matches Some(l1) ==> deepest_fit(hs, large, top) matches Some(
            l2,
        ) && l1 <= l2,
        deepest_fit(hs, large, top) matches Some(l2) ==> l2 <= top,
    decreases top,
{
    if top > 0 {
        lemma_deepest_fit_monotone(hs, small, large, (top - 1) as u8);
    }
}

/// A larger budget never selects a shallower level: whatever level fits a budget, the level
/// selected for any larger budget is at least as deep.
pub proof fn law_larger_budget_never_shallower(hs: Seq<HeadingView>, small: nat, large: nat)
    requires
        small <= large,
    ensures
        optimal_level(hs, small) matches Some(l1) ==> optimal_level(hs, large) matches Some(l2)
            && l1 <= l2,
{
    lemma_deepest_fit_monotone(hs, small, large, max_level(hs));
}

} // verus!
