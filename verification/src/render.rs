//! Styled rows for the timeline list and the diff pane, as plain values: a
//! `Line` is a list of `Span`s, each a piece of text with a `Style`.
//! Widths count characters.

use vstd::prelude::*;
use crate::text::{decimal, digit, digit_char, lemma_decimal_len_u64, push_char, push_decimal, push_repeated, repeated};
use crate::paths::{abbreviate_path, abbreviated, has_suffix, law_abbreviation_fits, relative_display, relative_text};
use crate::app::{App, Focus};
use crate::model::{CellKind, ChangeEvent, DiffCell, DiffLine, DiffMarker, SideRow, Token, TokenKind};
use crate::timeline::{FileGroup, VisibleRow};

verus! {

/// A terminal colour.
#[derive(Debug, Clone, Copy, PartialEq, Eq, Structural)]
pub enum Color {
    Green,
    Red,
    DarkGray,
    Cyan,
    White,
    Blue,
    Magenta,
    Yellow,
    Rgb(u8, u8, u8),
}

/// Foreground, background and the modifiers this UI uses.
#[derive(Debug, Clone, Copy, PartialEq, Eq, Structural)]
pub struct Style {
    pub fg: Option<Color>,
    pub bg: Option<Color>,
    pub bold: bool,
    pub dim: bool,
    pub reversed: bool,
}

/// No colour, no modifier.
pub open spec fn plain() -> Style {
    Style { fg: None, bg: None, bold: false, dim: false, reversed: false }
}

/// Foreground `c`, nothing else.
pub open spec fn tinted(c: Color) -> Style {
    Style { fg: Some(c), ..plain() }
}

/// Dimmed, no colour.
pub open spec fn dimmed() -> Style {
    Style { dim: true, ..plain() }
}

/// Dark gray and dimmed: the faint text of the list.
pub open spec fn faint() -> Style {
    Style { fg: Some(Color::DarkGray), dim: true, ..plain() }
}

/// The background of the selected list row.
pub open spec fn selection_color() -> Color {
    Color::Rgb(0x24, 0x30, 0x49)
}

impl Style {
    pub fn plain() -> (s: Style)
        ensures
            s == plain(),
    {
        Style { fg: None, bg: None, bold: false, dim: false, reversed: false }
    }

    pub fn fg(c: Color) -> (s: Style)
        ensures
            s == tinted(c),
    {
        Style { fg: Some(c), bg: None, bold: false, dim: false, reversed: false }
    }

    pub fn dimmed() -> (s: Style)
        ensures
            s == dimmed(),
    {
        Style { fg: None, bg: None, bold: false, dim: true, reversed: false }
    }

    pub fn faint() -> (s: Style)
        ensures
            s == faint(),
    {
        Style { fg: Some(Color::DarkGray), bg: None, bold: false, dim: true, reversed: false }
    }
}

/// A piece of text in one style.
#[derive(Debug, Clone)]
pub struct Span {
    pub content: String,
    pub style: Style,
}

impl View for Span {
    type V = (Seq<char>, Style);

    open spec fn view(&self) -> (Seq<char>, Style) {
        (self.content@, self.style)
    }
}

/// One row of styled text.
#[derive(Debug, Clone)]
pub struct Line {
    pub spans: Vec<Span>,
}

/// The views of a sequence of spans.
pub open spec fn span_views(spans: Seq<Span>) -> Seq<(Seq<char>, Style)> {
    spans.map_values(|s: Span| s@)
}

impl View for Line {
    type V = Seq<(Seq<char>, Style)>;

    open spec fn view(&self) -> Seq<(Seq<char>, Style)> {
        span_views(self.spans@)
    }
}

/// The views of a sequence of lines.
pub open spec fn line_views(lines: Seq<Line>) -> Seq<Seq<(Seq<char>, Style)>> {
    lines.map_values(|l: Line| l@)
}

/// The number of characters in all spans together.
pub open spec fn text_len(spans: Seq<(Seq<char>, Style)>) -> nat
    decreases spans.len(),
{
    if spans.len() == 0 {
        0
    } else {
        text_len(spans.drop_last()) + spans.last().0.len()
    }
}

/// All the text of the spans, in order.
pub open spec fn text_of(spans: Seq<(Seq<char>, Style)>) -> Seq<char>
    decreases spans.len(),
{
    if spans.len() == 0 {
        Seq::empty()
    } else {
        text_of(spans.drop_last()) + spans.last().0
    }
}

fn span(content: String, style: Style) -> (s: Span)
    ensures
        s@ == (content@, style),
{
    Span { content, style }
}

fn span_str(content: &str, style: Style) -> (s: Span)
    ensures
        s@ == (content@, style),
{
    Span { content: String::from_str(content), style }
}

fn push_span(spans: &mut Vec<Span>, s: Span)
    ensures
        span_views(final(spans)@) == span_views(old(spans)@).push(s@),
{
    let ghost before = spans@;
    spans.push(s);
    assert(span_views(spans@) =~= span_views(before).push(s@));
}

// ── clock ────────────────────────────────────────────────────────────────

/// Wall-clock `HH:MM` (UTC) of a millisecond epoch timestamp.
pub open spec fn clock_text(timestamp_ms: int) -> Seq<char> {
    let secs = timestamp_ms / 1000;
    let h = (secs / 3600) % 24;
    let m = (secs / 60) % 60;
    seq![
        digit_char((h / 10) as nat),
        digit_char((h % 10) as nat),
        ':',
        digit_char((m / 10) as nat),
        digit_char((m % 10) as nat),
    ]
}

/// The clock repeats every day: a timestamp one day later shows the same
/// `HH:MM`.
pub proof fn law_clock_daily(timestamp_ms: int)
    ensures
        clock_text(timestamp_ms + 86_400_000) == clock_text(timestamp_ms),
        clock_text(timestamp_ms).len() == 5,
        clock_text(timestamp_ms)[2] == ':',
{
    let secs = timestamp_ms / 1000;
    vstd::arithmetic::div_mod::lemma_hoist_over_denominator(timestamp_ms, 86_400, 1000nat);
    assert((timestamp_ms + 86_400_000) / 1000 == secs + 86_400);
    vstd::arithmetic::div_mod::lemma_hoist_over_denominator(secs, 24, 3600nat);
    vstd::arithmetic::div_mod::lemma_mod_multiples_vanish(1, secs / 3600, 24);
    vstd::arithmetic::div_mod::lemma_hoist_over_denominator(secs, 1440, 60nat);
    vstd::arithmetic::div_mod::lemma_mod_multiples_vanish(24, secs / 60, 60);
}

/// The minute of the (UTC) day of a millisecond epoch timestamp, counting
/// from midnight; earlier timestamps fall on earlier days.
pub open spec fn minute_of_day(timestamp_ms: int) -> int {
    (timestamp_ms / 60_000) % 1440
}

proof fn lemma_clock_shift(t0: int, k: int)
    ensures
        clock_text(t0 + k * 86_400_000) == clock_text(t0),
        minute_of_day(t0 + k * 86_400_000) == minute_of_day(t0),
{
    let s0 = t0 / 1000;
    assert(k * 86_400_000 == (k * 86_400) * 1000) by (nonlinear_arith);
    vstd::arithmetic::div_mod::lemma_hoist_over_denominator(t0, k * 86_400, 1000nat);
    let secs = s0 + k * 86_400;
    assert(k * 86_400 == (24 * k) * 3600) by (nonlinear_arith);
    vstd::arithmetic::div_mod::lemma_hoist_over_denominator(s0, 24 * k, 3600nat);
    vstd::arithmetic::div_mod::lemma_mod_multiples_vanish(k, s0 / 3600, 24);
    assert(k * 86_400 == (1440 * k) * 60) by (nonlinear_arith);
    vstd::arithmetic::div_mod::lemma_hoist_over_denominator(s0, 1440 * k, 60nat);
    assert(1440 * k == 60 * (24 * k)) by (nonlinear_arith);
    vstd::arithmetic::div_mod::lemma_mod_multiples_vanish(24 * k, s0 / 60, 60);
    assert(k * 86_400_000 == (1440 * k) * 60_000) by (nonlinear_arith);
    vstd::arithmetic::div_mod::lemma_hoist_over_denominator(t0, 1440 * k, 60_000nat);
    vstd::arithmetic::div_mod::lemma_mod_multiples_vanish(k, t0 / 60_000, 1440);
}

/// `HH:MM` reads the minute of the day: two digits of the hour (under 24),
/// a colon, two digits of the minute (under 60), with `hour * 60 + minute`
/// the minute of the day; negative timestamps count back from the epoch.
pub proof fn law_clock_reads_minute_of_day(timestamp_ms: int)
    ensures
        0 <= minute_of_day(timestamp_ms) < 1440,
        minute_of_day(timestamp_ms) / 60 < 24,
        clock_text(timestamp_ms) == seq![
            digit_char((minute_of_day(timestamp_ms) / 60 / 10) as nat),
            digit_char((minute_of_day(timestamp_ms) / 60 % 10) as nat),
            ':',
            digit_char((minute_of_day(timestamp_ms) % 60 / 10) as nat),
            digit_char((minute_of_day(timestamp_ms) % 60 % 10) as nat),
        ],
{
    let d: int = 86_400_000;
    let k = timestamp_ms / d;
    let t0 = timestamp_ms % d;
    assert(timestamp_ms == t0 + k * d) by {
        vstd::arithmetic::div_mod::lemma_fundamental_div_mod(timestamp_ms, d);
        assert(d * k == k * d) by (nonlinear_arith);
    }
    lemma_clock_shift(t0, k);
    let secs0 = t0 / 1000;
    let mins0 = t0 / 60_000;
    vstd::arithmetic::div_mod::lemma_div_denominator(t0, 1000, 60);
    assert(secs0 / 60 == mins0);
    vstd::arithmetic::div_mod::lemma_div_denominator(secs0, 60, 60);
    assert(secs0 / 3600 == mins0 / 60);
    let h0 = (mins0 / 60) % 24;
    let m0 = mins0 % 60;
    vstd::arithmetic::div_mod::lemma_mod_breakdown(mins0, 60, 24);
    let md = mins0 % 1440;
    assert(md == 60 * h0 + m0);
    assert(0 <= m0 < 60);
    assert(0 <= h0 < 24);
    vstd::arithmetic::div_mod::lemma_fundamental_div_mod_converse(md, 60, h0, m0);
    assert(minute_of_day(t0) == md);
}

/// Wall-clock `HH:MM` (UTC) derived from epoch milliseconds: a relative
/// glance, not a precise local timestamp.
#[verifier::spinoff_prover]
#[verifier::rlimit(60)]
pub fn hhmm(timestamp_ms: i64) -> (res: String)
    ensures
        res@ == clock_text(timestamp_ms as int),
{
    // Shift by a multiple of a day in milliseconds so that everything below
    // is unsigned; 86_400_000 * 106_752_000_000 exceeds 2^63.
    let big: u128 = 86_400_000u128 * 106_752_000_000u128;
    let t: u128 = (timestamp_ms as i128 + big as i128) as u128;
    let s: u128 = t / 1000;
    let h: u128 = (s / 3600) % 24;
    let m: u128 = (s / 60) % 60;
    proof {
        let n: int = 106_752_000_000;
        let k: int = 86_400 * n;
        let secs: int = (timestamp_ms as int) / 1000;
        let hk: int = 24 * n;
        let mk: int = 1440 * n;
        assert(big == 1000 * k);
        assert(t == timestamp_ms as int + k * 1000);
        vstd::arithmetic::div_mod::lemma_hoist_over_denominator(timestamp_ms as int, k, 1000nat);
        assert(s == secs + k);
        vstd::arithmetic::div_mod::lemma_hoist_over_denominator(secs, hk, 3600nat);
        assert(k == hk * 3600);
        assert(s / 3600 == secs / 3600 + hk);
        vstd::arithmetic::div_mod::lemma_mod_multiples_vanish(n, secs / 3600, 24);
        assert(hk == 24 * n);
        assert(h == (secs / 3600) % 24);
        vstd::arithmetic::div_mod::lemma_hoist_over_denominator(secs, mk, 60nat);
        assert(k == mk * 60);
        assert(s / 60 == secs / 60 + mk);
        vstd::arithmetic::div_mod::lemma_mod_multiples_vanish(1440 * n, secs / 60, 60);
        assert(m == (secs / 60) % 60);
    }
    let mut out = String::new();
    push_char(&mut out, digit((h / 10) as u64));
    push_char(&mut out, digit((h % 10) as u64));
    push_char(&mut out, ':');
    push_char(&mut out, digit((m / 10) as u64));
    push_char(&mut out, digit((m % 10) as u64));
    assert(out@ =~= clock_text(timestamp_ms as int));
    out
}

// ── magnitude gauge ──────────────────────────────────────────────────────

/// `part / total * width` rounded half away from zero (`total > 0`).
pub open spec fn rounded_share(part: nat, total: nat, width: nat) -> nat {
    ((2 * part * width + total) / (2 * total)) as nat
}

/// Repeatedly takes a cell from the larger side (the green side on a tie)
/// until both fit in `width`.
pub open spec fn shrink_to(g: nat, r: nat, width: nat) -> (nat, nat)
    decreases g + r,
{
    if g + r <= width {
        (g, r)
    } else if r > g {
        shrink_to(g, (r - 1) as nat, width)
    } else {
        shrink_to((g - 1) as nat, r, width)
    }
}

/// The cells of a `width`-cell gauge for `add` added and `del` removed lines:
/// `(green, red, empty)`. Each side gets its rounded share of the width
/// (over a total floored at one), a nonzero side at least one cell, and when
/// the two overflow the width the larger side gives cells back.
pub open spec fn gauge_cells(add: nat, del: nat, width: nat) -> (nat, nat, nat) {
    let total: nat = if add + del > 0 { add + del } else { 1 };
    let g0 = rounded_share(add, total, width);
    let r0 = rounded_share(del, total, width);
    let g1: nat = if add > 0 && g0 == 0 { 1 } else { g0 };
    let r1: nat = if del > 0 && r0 == 0 { 1 } else { r0 };
    let (g, r) = shrink_to(g1, r1, width);
    (g, r, (width - g - r) as nat)
}

/// The glyph of a filled gauge cell.
pub open spec fn filled() -> char {
    '▰'
}

/// The glyph of an empty gauge cell.
pub open spec fn hollow() -> char {
    '▱'
}

/// The three spans of the gauge: green filled cells, red filled cells,
/// dark-gray hollow cells.
pub open spec fn gauge_spans(add: nat, del: nat, width: nat) -> Seq<(Seq<char>, Style)> {
    let (g, r, e) = gauge_cells(add, del, width);
    seq![
        (repeated(filled(), g), tinted(Color::Green)),
        (repeated(filled(), r), tinted(Color::Red)),
        (repeated(hollow(), e), tinted(Color::DarkGray)),
    ]
}

proof fn lemma_shrink_fits(g: nat, r: nat, width: nat)
    ensures
        shrink_to(g, r, width).0 + shrink_to(g, r, width).1 <= width,
        shrink_to(g, r, width).0 <= g,
        shrink_to(g, r, width).1 <= r,
    decreases g + r,
{
    if g + r <= width {
    } else if r > g {
        lemma_shrink_fits(g, (r - 1) as nat, width);
    } else {
        lemma_shrink_fits((g - 1) as nat, r, width);
    }
}

proof fn lemma_share_bound(part: nat, total: nat, width: nat)
    requires
        0 < total,
        part <= total,
    ensures
        rounded_share(part, total, width) <= width,
{
    assert(2 * part * width + total < 2 * total * (width + 1)) by (nonlinear_arith)
        requires
            0 < total,
            part <= total,
    ;
    assert((2 * part * width + total) / (2 * total) < width + 1) by (nonlinear_arith)
        requires
            0 < total,
            2 * part * width + total < 2 * total * (width + 1),
    ;
}

/// Fixed-width magnitude gauge: green cells for `add`, red cells for `del`
/// in a `width`-cell bar, the remainder faint hollow cells.
pub fn stat_bar(add: u32, del: u32, width: usize) -> (res: Vec<Span>)
    ensures
        span_views(res@) == gauge_spans(add as nat, del as nat, width as nat),
{
    let sum: u64 = add as u64 + del as u64;
    let total: u64 = if sum > 0 { sum } else { 1 };
    let w: u128 = width as u128;
    proof {
        assert(2 * (add as int) * (width as int) <= 2 * 0x1_0000_0000 * 0x1_0000_0000_0000_0000)
            by (nonlinear_arith)
            requires
                add <= 0xffff_ffff,
                width <= 0xffff_ffff_ffff_ffff,
        ;
        assert(2 * (del as int) * (width as int) <= 2 * 0x1_0000_0000 * 0x1_0000_0000_0000_0000)
            by (nonlinear_arith)
            requires
                del <= 0xffff_ffff,
                width <= 0xffff_ffff_ffff_ffff,
        ;
        lemma_share_bound(add as nat, total as nat, width as nat);
        lemma_share_bound(del as nat, total as nat, width as nat);
    }
    let g0: u128 = (2 * (add as u128) * w + total as u128) / (2 * total as u128);
    let r0: u128 = (2 * (del as u128) * w + total as u128) / (2 * total as u128);
    let mut g: u128 = if add > 0 && g0 == 0 { 1 } else { g0 };
    let mut r: u128 = if del > 0 && r0 == 0 { 1 } else { r0 };
    let ghost start = (g as nat, r as nat);
    while g + r > w
        invariant
            g <= w + 1,
            r <= w + 1,
            w == width,
            w <= 0xffff_ffff_ffff_ffff,
            shrink_to(g as nat, r as nat, w as nat) == shrink_to(start.0, start.1, w as nat),
        decreases g + r,
    {
        if r > g {
            r = r - 1;
        } else {
            g = g - 1;
        }
    }
    proof {
        lemma_shrink_fits(start.0, start.1, width as nat);
    }
    let gc: usize = g as usize;
    let rc: usize = r as usize;
    let ec: usize = width - gc - rc;
    let mut green = String::new();
    push_repeated(&mut green, '▰', gc);
    let mut red = String::new();
    push_repeated(&mut red, '▰', rc);
    let mut empty = String::new();
    push_repeated(&mut empty, '▱', ec);
    let mut out: Vec<Span> = Vec::new();
    out.push(span(green, Style::fg(Color::Green)));
    out.push(span(red, Style::fg(Color::Red)));
    out.push(span(empty, Style::fg(Color::DarkGray)));
    assert(span_views(out@) =~= gauge_spans(add as nat, del as nat, width as nat));
    out
}

proof fn lemma_shrink_keeps_both(g: nat, r: nat, width: nat)
    requires
        g >= 1,
        r >= 1,
        width >= 2,
    ensures
        shrink_to(g, r, width).0 >= 1,
        shrink_to(g, r, width).1 >= 1,
    decreases g + r,
{
    if g + r <= width {
    } else if r > g {
        lemma_shrink_keeps_both(g, (r - 1) as nat, width);
    } else {
        lemma_shrink_keeps_both((g - 1) as nat, r, width);
    }
}

proof fn lemma_shrink_zero_side(g: nat, r: nat, width: nat)
    ensures
        g == 0 ==> shrink_to(g, r, width).0 == 0,
        r == 0 ==> shrink_to(g, r, width).1 == 0,
    decreases g + r,
{
    if g + r <= width {
    } else if r > g {
        lemma_shrink_zero_side(g, (r - 1) as nat, width);
    } else {
        lemma_shrink_zero_side((g - 1) as nat, r, width);
    }
}

/// The gauge always has exactly `width` cells; a side with no lines gets no
/// cell; with both sides nonzero and room for two cells, both are shown; a
/// one-sided change fills the whole gauge.
pub proof fn law_gauge(add: nat, del: nat, width: nat)
    ensures
        gauge_cells(add, del, width).0 + gauge_cells(add, del, width).1 + gauge_cells(add, del, width).2
            == width,
        add == 0 ==> gauge_cells(add, del, width).0 == 0,
        del == 0 ==> gauge_cells(add, del, width).1 == 0,
        add > 0 && del > 0 && width >= 2 ==> gauge_cells(add, del, width).0 >= 1
            && gauge_cells(add, del, width).1 >= 1,
        add > 0 && del == 0 ==> gauge_cells(add, del, width).0 == width,
        add == 0 && del == 0 ==> gauge_cells(add, del, width).2 == width,
{
    let total: nat = if add + del > 0 { add + del } else { 1 };
    let g0 = rounded_share(add, total, width);
    let r0 = rounded_share(del, total, width);
    let g1: nat = if add > 0 && g0 == 0 { 1 } else { g0 };
    let r1: nat = if del > 0 && r0 == 0 { 1 } else { r0 };
    lemma_shrink_fits(g1, r1, width);
    lemma_shrink_zero_side(g1, r1, width);
    if add == 0 {
        assert((2 * add * width + total) / (2 * total) == 0) by (nonlinear_arith)
            requires
                add == 0,
                total >= 1,
        ;
    }
    if del == 0 {
        assert((2 * del * width + total) / (2 * total) == 0) by (nonlinear_arith)
            requires
                del == 0,
                total >= 1,
        ;
    }
    if add > 0 && del > 0 && width >= 2 {
        lemma_shrink_keeps_both(g1, r1, width);
    }
    if add > 0 && del == 0 {
        assert((2 * add * width + add) / (2 * add) == width) by (nonlinear_arith)
            requires
                add > 0,
        ;
        if width == 0 {
            assert(shrink_to(1, 0, 0) == shrink_to(0, 0, 0));
        }
    }
}

// ── padding, selection, clipping ─────────────────────────────────────────

proof fn lemma_text_push(spans: Seq<(Seq<char>, Style)>, x: (Seq<char>, Style))
    ensures
        text_len(spans.push(x)) == text_len(spans) + x.0.len(),
        text_of(spans.push(x)) == text_of(spans) + x.0,
{
    assert(spans.push(x).drop_last() =~= spans);
}

/// The number of characters in `spans`, saturated at `usize::MAX`.
fn spans_len(spans: &Vec<Span>) -> (res: usize)
    ensures
        res == if text_len(span_views(spans@)) <= usize::MAX {
            text_len(span_views(spans@))
        } else {
            usize::MAX as nat
        },
{
    let mut total: usize = 0;
    let mut i: usize = 0;
    while i < spans.len()
        invariant
            i <= spans@.len(),
            total == if text_len(span_views(spans@.subrange(0, i as int))) <= usize::MAX {
                text_len(span_views(spans@.subrange(0, i as int)))
            } else {
                usize::MAX as nat
            },
        decreases spans@.len() - i,
    {
        proof {
            let pre = span_views(spans@.subrange(0, i as int));
            assert(span_views(spans@.subrange(0, i + 1)) =~= pre.push(spans@[i as int]@));
            lemma_text_push(pre, spans@[i as int]@);
        }
        let n = spans[i].content.as_str().unicode_len();
        total = total.saturating_add(n);
        i = i + 1;
    }
    assert(spans@.subrange(0, spans@.len() as int) =~= spans@);
    total
}

/// Every span given the background `c`.
pub open spec fn with_background(spans: Seq<(Seq<char>, Style)>, c: Color) -> Seq<(Seq<char>, Style)> {
    Seq::new(spans.len(), |i: int| (spans[i].0, Style { bg: Some(c), ..spans[i].1 }))
}

/// A row padded with blanks to `width` characters and, when `selected`,
/// carrying the selection background on every span.
pub open spec fn finished(spans: Seq<(Seq<char>, Style)>, width: nat, selected: bool) -> Seq<(Seq<char>, Style)> {
    let used = text_len(spans);
    let padded = if used < width {
        spans.push((repeated(' ', (width - used) as nat), plain()))
    } else {
        spans
    };
    if selected {
        with_background(padded, selection_color())
    } else {
        padded
    }
}

/// Pads a span list to `width` columns; when `selected`, fills the row with
/// the selection background.
fn finish(spans: Vec<Span>, width: u16, selected: bool) -> (res: Line)
    ensures
        res@ == finished(span_views(spans@), width as nat, selected),
{
    let mut spans = spans;
    let used = spans_len(&spans);
    if used < width as usize {
        let mut pad = String::new();
        push_repeated(&mut pad, ' ', width as usize - used);
        push_span(&mut spans, span(pad, Style::plain()));
    }
    if !selected {
        return Line { spans };
    }
    let bg = Color::Rgb(0x24, 0x30, 0x49);
    let mut out: Vec<Span> = Vec::new();
    let mut i: usize = 0;
    while i < spans.len()
        invariant
            i <= spans@.len(),
            span_views(out@) == with_background(span_views(spans@), bg).subrange(0, i as int),
        decreases spans@.len() - i,
    {
        let s = &spans[i];
        let st = Style { fg: s.style.fg, bg: Some(bg), bold: s.style.bold, dim: s.style.dim, reversed: s.style.reversed };
        push_span(&mut out, span(s.content.clone(), st));
        i = i + 1;
        assert(span_views(out@) =~= with_background(span_views(spans@), bg).subrange(0, i as int));
    }
    assert(span_views(out@) =~= with_background(span_views(spans@), bg));
    Line { spans: out }
}

proof fn lemma_background_len(spans: Seq<(Seq<char>, Style)>, c: Color)
    ensures
        text_len(with_background(spans, c)) == text_len(spans),
        text_of(with_background(spans, c)) == text_of(spans),
    decreases spans.len(),
{
    if spans.len() > 0 {
        assert(with_background(spans, c).drop_last() =~= with_background(spans.drop_last(), c));
        lemma_background_len(spans.drop_last(), c);
    }
}

/// A finished row is exactly `width` characters wide unless its content is
/// wider, keeps its content in front, and a selected row carries the
/// selection background on every span.
pub proof fn law_finished_row(spans: Seq<(Seq<char>, Style)>, width: nat, selected: bool)
    ensures
        text_len(finished(spans, width, selected)) == if text_len(spans) < width { width } else { text_len(spans) },
        text_of(finished(spans, width, selected)).take(text_of(spans).len() as int) == text_of(spans),
        selected ==> forall|i: int|
            0 <= i < finished(spans, width, selected).len() ==> (#[trigger] finished(spans, width, selected)[i]).1.bg
                == Some(selection_color()),
{
    let used = text_len(spans);
    let padded = if used < width {
        spans.push((repeated(' ', (width - used) as nat), plain()))
    } else {
        spans
    };
    if used < width {
        lemma_text_push(spans, (repeated(' ', (width - used) as nat), plain()));
    }
    lemma_background_len(padded, selection_color());
    assert(text_of(padded).take(text_of(spans).len() as int) =~= text_of(spans));
}

/// The spans cut to `width` characters: whole spans while they fit, then the
/// first characters of the span at the boundary.
pub open spec fn clipped(spans: Seq<(Seq<char>, Style)>, width: nat) -> Seq<(Seq<char>, Style)>
    decreases spans.len(),
{
    if spans.len() == 0 || width == 0 {
        Seq::empty()
    } else if spans[0].0.len() <= width {
        seq![spans[0]] + clipped(spans.drop_first(), (width - spans[0].0.len()) as nat)
    } else {
        seq![(spans[0].0.take(width as int), spans[0].1)]
    }
}

proof fn lemma_text_len_is_len(spans: Seq<(Seq<char>, Style)>)
    ensures
        text_len(spans) == text_of(spans).len(),
    decreases spans.len(),
{
    if spans.len() > 0 {
        lemma_text_len_is_len(spans.drop_last());
    }
}

proof fn lemma_text_front(spans: Seq<(Seq<char>, Style)>)
    requires
        spans.len() > 0,
    ensures
        text_of(spans) == spans[0].0 + text_of(spans.drop_first()),
{
    assert(spans =~= seq![spans[0]] + spans.drop_first());
    lemma_text_append(seq![spans[0]], spans.drop_first());
    lemma_text_single(spans[0]);
}

/// Clipping keeps exactly the first `width` characters of the line (all of
/// them when it is narrower), each in the style it had.
pub proof fn law_clip_keeps_prefix(spans: Seq<(Seq<char>, Style)>, width: nat)
    ensures
        text_of(clipped(spans, width)) == text_of(spans).take(
            if text_len(spans) < width { text_len(spans) as int } else { width as int },
        ),
    decreases spans.len(),
{
    lemma_text_len_is_len(spans);
    if spans.len() == 0 {
        assert(text_of(spans).take(0) =~= Seq::<char>::empty());
    } else if width == 0 {
        assert(text_of(spans).take(0) =~= Seq::<char>::empty());
    } else {
        let x = spans[0];
        let rest = spans.drop_first();
        lemma_text_front(spans);
        lemma_text_len_is_len(rest);
        if x.0.len() <= width {
            let w2 = (width - x.0.len()) as nat;
            law_clip_keeps_prefix(rest, w2);
            lemma_text_append(seq![x], clipped(rest, w2));
            lemma_text_single(x);
            assert(text_of(clipped(spans, width)) =~= text_of(spans).take(
                if text_len(spans) < width { text_len(spans) as int } else { width as int },
            ));
        } else {
            lemma_text_single((x.0.take(width as int), x.1));
            assert(text_of(clipped(spans, width)) =~= text_of(spans).take(width as int));
        }
    }
}

/// Clipping works span by span: it keeps at most as many spans as there
/// were, each in its own style; every kept span but the last is whole, and
/// the last is a leading part of its span. Clipping a clipped line again
/// changes nothing.
pub proof fn law_clip_spans(spans: Seq<(Seq<char>, Style)>, width: nat)
    ensures
        clipped(spans, width).len() <= spans.len(),
        forall|i: int|
            0 <= i < clipped(spans, width).len() ==> (#[trigger] clipped(spans, width)[i]).1 == spans[i].1
                && clipped(spans, width)[i].0 == spans[i].0.take(clipped(spans, width)[i].0.len() as int)
                && clipped(spans, width)[i].0.len() <= spans[i].0.len(),
        forall|i: int| 0 <= i < clipped(spans, width).len() - 1 ==> #[trigger] clipped(spans, width)[i] == spans[i],
        clipped(clipped(spans, width), width) == clipped(spans, width),
    decreases spans.len(),
{
    let c = clipped(spans, width);
    if spans.len() == 0 || width == 0 {
    } else if spans[0].0.len() <= width {
        let rest = spans.drop_first();
        let w2 = (width - spans[0].0.len()) as nat;
        law_clip_spans(rest, w2);
        let cr = clipped(rest, w2);
        assert(c == seq![spans[0]] + cr);
        assert forall|i: int| 0 <= i < c.len() implies (#[trigger] c[i]).1 == spans[i].1
            && c[i].0 == spans[i].0.take(c[i].0.len() as int) && c[i].0.len() <= spans[i].0.len() by {
            if i == 0 {
                assert(spans[0].0.take(spans[0].0.len() as int) =~= spans[0].0);
            } else {
                assert(c[i] == cr[i - 1]);
                assert(rest[i - 1] == spans[i]);
            }
        }
        assert forall|i: int| 0 <= i < c.len() - 1 implies #[trigger] c[i] == spans[i] by {
            if i > 0 {
                assert(c[i] == cr[i - 1]);
                assert(rest[i - 1] == spans[i]);
            }
        }
        assert(c.drop_first() =~= cr);
        assert(clipped(c, width) == seq![c[0]] + clipped(c.drop_first(), w2));
    } else {
        let x = (spans[0].0.take(width as int), spans[0].1);
        assert(c == seq![x]);
        assert(x.0.len() == width);
        assert(seq![x].drop_first() =~= Seq::<(Seq<char>, Style)>::empty());
        assert(clipped(c, width) == seq![x] + clipped(Seq::<(Seq<char>, Style)>::empty(), 0));
        assert(clipped(c, width) =~= c);
    }
}

/// Truncates a styled line to `width` characters, preserving span styles;
/// the boundary span is trimmed.
pub fn clip_line_to_width(line: &Line, width: usize) -> (res: Line)
    ensures
        res@ == clipped(line@, width as nat),
{
    let spans = &line.spans;
    let n = spans.len();
    let mut out: Vec<Span> = Vec::new();
    let mut used: usize = 0;
    let mut done = false;
    let mut i: usize = 0;
    let ghost v = line@;
    proof {
        assert(v.subrange(0, n as int) =~= v);
        assert(span_views(out@) =~= Seq::<(Seq<char>, Style)>::empty());
        assert(span_views(out@) + v =~= v);
    }
    while i < n && !done && used < width
        invariant
            n == spans@.len(),
            v == span_views(spans@),
            i <= n,
            used <= width,
            !done ==> clipped(v, width as nat) == span_views(out@) + clipped(v.subrange(i as int, n as int), (width - used) as nat),
            done ==> clipped(v, width as nat) == span_views(out@),
        decreases n - i,
    {
        let ghost rest = v.subrange(i as int, n as int);
        proof {
            assert(rest[0] == v[i as int]);
            assert(rest.drop_first() =~= v.subrange(i + 1, n as int));
        }
        let remaining = width - used;
        let s = &spans[i];
        let cnt = s.content.as_str().unicode_len();
        if cnt <= remaining {
            push_span(&mut out, span(s.content.clone(), s.style));
            used = used + cnt;
            proof {
                assert(span_views(out@) + clipped(v.subrange(i + 1, n as int), (width - used) as nat)
                    =~= span_views(out@).drop_last() + clipped(rest, (width - (used - cnt)) as nat));
            }
        } else {
            let cut = String::from_str(s.content.as_str().substring_char(0, remaining));
            push_span(&mut out, span(cut, s.style));
            done = true;
            proof {
                assert(span_views(out@) =~= span_views(out@).drop_last() + clipped(rest, remaining as nat));
            }
        }
        i = i + 1;
    }
    proof {
        if !done {
            assert(clipped(v.subrange(i as int, n as int), (width - used) as nat) =~= Seq::empty());
        }
    }
    Line { spans: out }
}

// ── list rows ────────────────────────────────────────────────────────────

proof fn lemma_text_append(a: Seq<(Seq<char>, Style)>, b: Seq<(Seq<char>, Style)>)
    ensures
        text_len(a + b) == text_len(a) + text_len(b),
        text_of(a + b) == text_of(a) + text_of(b),
    decreases b.len(),
{
    if b.len() == 0 {
        assert(a + b =~= a);
        assert(text_of(a) + text_of(b) =~= text_of(a));
    } else {
        lemma_text_append(a, b.drop_last());
        assert((a + b).drop_last() =~= a + b.drop_last());
        assert(text_of(a + b) =~= text_of(a) + text_of(b));
    }
}

proof fn lemma_text_single(x: (Seq<char>, Style))
    ensures
        text_len(seq![x]) == x.0.len(),
        text_of(seq![x]) == x.0,
{
    let e = Seq::<(Seq<char>, Style)>::empty();
    assert(seq![x].drop_last() =~= e);
    assert(seq![x].last() == x);
    assert(text_of(e) == Seq::<char>::empty());
    assert(text_len(e) == 0);
    assert(Seq::<char>::empty() + x.0 =~= x.0);
}

proof fn lemma_gauge_len(add: nat, del: nat, width: nat)
    ensures
        text_len(gauge_spans(add, del, width)) == width,
{
    let (g, r, e) = gauge_cells(add, del, width);
    let total: nat = if add + del > 0 { add + del } else { 1 };
    let g0 = rounded_share(add, total, width);
    let r0 = rounded_share(del, total, width);
    let g1: nat = if add > 0 && g0 == 0 { 1 } else { g0 };
    let r1: nat = if del > 0 && r0 == 0 { 1 } else { r0 };
    lemma_shrink_fits(g1, r1, width);
    let sp = gauge_spans(add, del, width);
    assert(sp =~= seq![sp[0]] + seq![sp[1]] + seq![sp[2]]);
    lemma_text_append(seq![sp[0]] + seq![sp[1]], seq![sp[2]]);
    lemma_text_append(seq![sp[0]], seq![sp[1]]);
    lemma_text_single(sp[0]);
    lemma_text_single(sp[1]);
    lemma_text_single(sp[2]);
}

/// `n` saturating-minus `m`, as the row layout computes free space.
pub open spec fn sat_sub(n: int, m: int) -> nat {
    if n > m { (n - m) as nat } else { 0 }
}

/// `+N` in green.
pub open spec fn added_span(n: nat) -> (Seq<char>, Style) {
    (seq!['+'] + decimal(n), tinted(Color::Green))
}

/// ` -N` in red.
pub open spec fn removed_span(n: nat) -> (Seq<char>, Style) {
    (seq![' ', '-'] + decimal(n), tinted(Color::Red))
}

/// The right block of a file header: gauge, blank, `+A`, ` -D` when lines
/// were removed, then the edit count.
pub open spec fn header_right(add: u32, del: u32, count: usize) -> Seq<(Seq<char>, Style)> {
    gauge_spans(add as nat, del as nat, 4)
        + seq![(seq![' '], plain()), added_span(add as nat)]
        + (if del > 0 { seq![removed_span(del as nat)] } else { Seq::empty() })
        + seq![(seq![' ', ' '] + decimal(count as nat), faint())]
}

/// The spans of a file header row: `<caret><path>[ new]<gap><right block>`,
/// the path abbreviated to what the row leaves it and the gap at least one.
pub open spec fn header_spans(
    file_rel: Seq<char>,
    add: u32,
    del: u32,
    count: usize,
    is_new: bool,
    expanded: bool,
    active: bool,
    width: u16,
) -> Seq<(Seq<char>, Style)> {
    let right = header_right(add, del, count);
    let right_len = text_len(right);
    let new_len: nat = if is_new { 4 } else { 0 };
    let budget = sat_sub(width as int, (2 + new_len + right_len + 1) as int);
    let path = abbreviated(file_rel, budget);
    let left_len = 2 + path.len() + new_len;
    let gap0 = sat_sub(width as int, (left_len + right_len) as int);
    let gap: nat = if gap0 > 1 { gap0 } else { 1 };
    let caret = if expanded {
        (seq!['▾', ' '], tinted(Color::Cyan))
    } else {
        (seq!['▸', ' '], faint())
    };
    let path_style = if active { Style { bold: true, ..tinted(Color::Cyan) } } else { tinted(Color::White) };
    seq![caret, (path, path_style)]
        + (if is_new { seq![(seq![' ', 'n', 'e', 'w'], tinted(Color::Blue))] } else { Seq::empty() })
        + seq![(repeated(' ', gap), plain())]
        + right
}

/// A string of the two characters `a`, `b`.
fn text2(a: char, b: char) -> (s: String)
    ensures
        s@ == seq![a, b],
{
    let mut s = String::new();
    push_char(&mut s, a);
    push_char(&mut s, b);
    assert(s@ =~= seq![a, b]);
    s
}

/// `prefix` followed by the decimal notation of `n`.
fn with_number(prefix: &[char], n: u64) -> (s: String)
    ensures
        s@ == prefix@ + decimal(n as nat),
{
    let mut s = String::new();
    crate::text::push_chars(&mut s, prefix);
    push_decimal(&mut s, n);
    s
}

/// The right block of a file header, and its width.
fn header_right_spans(add: u32, del: u32, count: usize) -> (res: (Vec<Span>, usize))
    ensures
        span_views(res.0@) == header_right(add, del, count),
        res.1 == text_len(header_right(add, del, count)),
        res.1 <= 70,
{
    let mut right = stat_bar(add, del, 4);
    let ghost r0 = span_views(right@);
    proof {
        lemma_gauge_len(add as nat, del as nat, 4);
        lemma_decimal_len_u64(add as u64);
        lemma_decimal_len_u64(del as u64);
        lemma_decimal_len_u64(count as u64);
    }
    let mut blank = String::new();
    push_char(&mut blank, ' ');
    push_span(&mut right, span(blank, Style::plain()));
    push_span(&mut right, span(with_number(&['+'], add as u64), Style::fg(Color::Green)));
    proof {
        assert(['+']@ =~= seq!['+']);
    }
    let ghost r1 = span_views(right@);
    if del > 0 {
        push_span(&mut right, span(with_number(&[' ', '-'], del as u64), Style::fg(Color::Red)));
        proof {
            assert([' ', '-']@ =~= seq![' ', '-']);
        }
    }
    let ghost r2 = span_views(right@);
    push_span(&mut right, span(with_number(&[' ', ' '], count as u64), Style::faint()));
    proof {
        assert([' ', ' ']@ =~= seq![' ', ' ']);
        let rest_new = if del > 0 { seq![removed_span(del as nat)] } else { Seq::empty() };
        let mid = seq![(seq![' '], plain()), added_span(add as nat)];
        let tail = seq![(seq![' ', ' '] + decimal(count as nat), faint())];
        assert(r1 =~= r0 + mid);
        assert(r2 =~= r0 + mid + rest_new);
        assert(span_views(right@) =~= r0 + mid + rest_new + tail);
        lemma_text_append(r0 + mid + rest_new, tail);
        lemma_text_append(r0 + mid, rest_new);
        lemma_text_append(r0, mid);
        assert(mid =~= seq![mid[0]] + seq![mid[1]]);
        lemma_text_append(seq![mid[0]], seq![mid[1]]);
        lemma_text_single(mid[0]);
        lemma_text_single(mid[1]);
        lemma_text_single(tail[0]);
        if del > 0 {
            lemma_text_single(rest_new[0]);
        }
        assert(text_len(rest_new) <= 22);
    }
    let len = spans_len(&right);
    (right, len)
}

/// The caret that opens a file header: `▾ ` expanded, `▸ ` folded.
pub open spec fn header_caret(expanded: bool) -> (Seq<char>, Style) {
    if expanded {
        (seq!['▾', ' '], tinted(Color::Cyan))
    } else {
        (seq!['▸', ' '], faint())
    }
}

/// A file header fills its row exactly whenever the row has room for the
/// caret, the ` new` tag, the right block and one blank: the row is `width`
/// characters wide, starts with the caret, ends with the edit count, shows
/// the removed count exactly when lines were removed, and a selected header
/// carries the selection background on every span.
pub proof fn law_header_fills_row(
    file_rel: Seq<char>,
    add: u32,
    del: u32,
    count: usize,
    is_new: bool,
    expanded: bool,
    active: bool,
    width: u16,
    selected: bool,
)
    requires
        3 + text_len(header_right(add, del, count)) + (if is_new { 4nat } else { 0nat }) <= width,
    ensures
        text_len(header_spans(file_rel, add, del, count, is_new, expanded, active, width)) == width,
        text_len(finished(header_spans(file_rel, add, del, count, is_new, expanded, active, width), width as nat, selected))
            == width,
        finished(header_spans(file_rel, add, del, count, is_new, expanded, active, width), width as nat, selected)[0].0
            == header_caret(expanded).0,
        header_spans(file_rel, add, del, count, is_new, expanded, active, width).last() == (
            seq![' ', ' '] + decimal(count as nat),
            faint(),
        ),
        header_right(add, del, count).contains(removed_span(del as nat)) <==> del > 0,
        selected ==> forall|i: int|
            0 <= i < finished(header_spans(file_rel, add, del, count, is_new, expanded, active, width), width as nat, selected).len()
                ==> (#[trigger] finished(header_spans(file_rel, add, del, count, is_new, expanded, active, width), width as nat, selected)[i]).1.bg
                == Some(selection_color()),
{
    let hs = header_spans(file_rel, add, del, count, is_new, expanded, active, width);
    let right = header_right(add, del, count);
    let right_len = text_len(right);
    let new_len: nat = if is_new { 4 } else { 0 };
    let budget = sat_sub(width as int, (2 + new_len + right_len + 1) as int);
    law_abbreviation_fits(file_rel, budget);
    let path = abbreviated(file_rel, budget);
    let left_len = 2 + path.len() + new_len;
    let gap0 = sat_sub(width as int, (left_len + right_len) as int);
    assert(gap0 >= 1);
    let path_style = if active { Style { bold: true, ..tinted(Color::Cyan) } } else { tinted(Color::White) };
    let head = seq![header_caret(expanded), (path, path_style)];
    let new_part = if is_new { seq![(seq![' ', 'n', 'e', 'w'], tinted(Color::Blue))] } else { Seq::empty() };
    let pad = seq![(repeated(' ', gap0), plain())];
    assert(hs =~= head + new_part + pad + right);
    assert(head =~= seq![head[0]] + seq![head[1]]);
    lemma_text_append(seq![head[0]], seq![head[1]]);
    lemma_text_single(head[0]);
    lemma_text_single(head[1]);
    if is_new {
        lemma_text_single(new_part[0]);
    } else {
        assert(text_len(new_part) == 0);
    }
    lemma_text_single(pad[0]);
    lemma_text_append(head, new_part);
    lemma_text_append(head + new_part, pad);
    lemma_text_append(head + new_part + pad, right);
    assert(text_len(hs) == width);
    law_finished_row(hs, width as nat, selected);
    assert(finished(hs, width as nat, selected)[0].0 == hs[0].0);
    // the removed count
    let g = gauge_spans(add as nat, del as nat, 4);
    let tail = seq![(seq![' ', ' '] + decimal(count as nat), faint())];
    let mid = seq![(seq![' '], plain()), added_span(add as nat)];
    if del > 0 {
        assert(right[5] == removed_span(del as nat));
    } else {
        assert(right =~= g + mid + tail);
        assert(removed_span(0).0[0] == ' ');
        assert(removed_span(0).0.len() == 3) by {
            reveal_with_fuel(decimal, 2);
        }
        assert forall|i: int| 0 <= i < right.len() implies right[i] != removed_span(0) by {
            if i == 1 {
                let r = right[1].0;
                if r.len() == 3 {
                    assert(r[0] == filled());
                }
            }
        }
    }
}

/// A grouped file-header row: `<caret><path>[ new]<pad><gauge> +A[ -D]<pad><count>`.
#[verifier::spinoff_prover]
#[verifier::rlimit(40)]
pub fn header_line(
    file_rel: &str,
    add: u32,
    del: u32,
    count: usize,
    is_new: bool,
    expanded: bool,
    active: bool,
    width: u16,
    selected: bool,
) -> (res: Line)
    ensures
        res@ == finished(
            header_spans(file_rel@, add, del, count, is_new, expanded, active, width),
            width as nat,
            selected,
        ),
{
    let (mut right, right_len) = header_right_spans(add, del, count);
    let new_len: usize = if is_new { 4 } else { 0 };
    let caret_len: usize = 2;
    let budget = (width as usize).saturating_sub(caret_len + new_len + right_len + 1);
    let path = abbreviate_path(file_rel, budget);
    let path_len = path.as_str().unicode_len();
    proof {
        law_abbreviation_fits(file_rel@, budget as nat);
    }
    let left_len = caret_len + path_len + new_len;
    let gap0 = (width as usize).saturating_sub(left_len + right_len);
    let gap: usize = if gap0 > 1 { gap0 } else { 1 };

    let mut spans: Vec<Span> = Vec::new();
    if expanded {
        push_span(&mut spans, span(text2('▾', ' '), Style::fg(Color::Cyan)));
    } else {
        push_span(&mut spans, span(text2('▸', ' '), Style::faint()));
    }
    let path_style = if active {
        Style { fg: Some(Color::Cyan), bg: None, bold: true, dim: false, reversed: false }
    } else {
        Style::fg(Color::White)
    };
    push_span(&mut spans, span(path, path_style));
    let ghost s0 = span_views(spans@);
    if is_new {
        let mut tag = String::new();
        push_char(&mut tag, ' ');
        push_char(&mut tag, 'n');
        push_char(&mut tag, 'e');
        push_char(&mut tag, 'w');
        assert(tag@ =~= seq![' ', 'n', 'e', 'w']);
        push_span(&mut spans, span(tag, Style::fg(Color::Blue)));
    }
    let ghost s1 = span_views(spans@);
    let mut pad = String::new();
    push_repeated(&mut pad, ' ', gap);
    push_span(&mut spans, span(pad, Style::plain()));
    let ghost s2 = span_views(spans@);
    let ghost rv = span_views(right@);
    spans.append(&mut right);
    proof {
        let new_part = if is_new { seq![(seq![' ', 'n', 'e', 'w'], tinted(Color::Blue))] } else { Seq::empty() };
        assert(s1 =~= s0 + new_part);
        assert(span_views(spans@) =~= s2 + rv);
        assert(span_views(spans@) =~= header_spans(file_rel@, add, del, count, is_new, expanded, active, width));
    }
    finish(spans, width, selected)
}

/// The spans of a nested edit row: `  <connector> <HH:MM>  +a[ -d]  <summary>`,
/// the corner connector on the group's last edit, the summary bright when
/// selected.
pub open spec fn edit_spans(
    timestamp_ms: i64,
    add: u32,
    del: u32,
    summary: Seq<char>,
    last: bool,
    selected: bool,
) -> Seq<(Seq<char>, Style)> {
    let connector = if last { seq!['└', ' '] } else { seq!['├', ' '] };
    let summary_style = if selected { tinted(Color::White) } else { faint() };
    seq![
        (seq![' ', ' '], plain()),
        (connector, tinted(Color::DarkGray)),
        (clock_text(timestamp_ms as int), faint()),
        (seq![' ', ' '], plain()),
        added_span(add as nat),
    ]
        + (if del > 0 { seq![removed_span(del as nat)] } else { Seq::empty() })
        + seq![(seq![' ', ' '], plain()), (summary, summary_style)]
}

/// A nested edit row under the active file.
pub fn edit_line(
    timestamp_ms: i64,
    add: u32,
    del: u32,
    summary: &str,
    last: bool,
    selected: bool,
    width: u16,
) -> (res: Line)
    ensures
        res@ == finished(edit_spans(timestamp_ms, add, del, summary@, last, selected), width as nat, selected),
{
    let mut spans: Vec<Span> = Vec::new();
    push_span(&mut spans, span(text2(' ', ' '), Style::plain()));
    let connector = if last { text2('└', ' ') } else { text2('├', ' ') };
    push_span(&mut spans, span(connector, Style::fg(Color::DarkGray)));
    push_span(&mut spans, span(hhmm(timestamp_ms), Style::faint()));
    push_span(&mut spans, span(text2(' ', ' '), Style::plain()));
    push_span(&mut spans, span(with_number(&['+'], add as u64), Style::fg(Color::Green)));
    proof {
        assert(['+']@ =~= seq!['+']);
    }
    let ghost s0 = span_views(spans@);
    if del > 0 {
        push_span(&mut spans, span(with_number(&[' ', '-'], del as u64), Style::fg(Color::Red)));
        proof {
            assert([' ', '-']@ =~= seq![' ', '-']);
        }
    }
    let ghost s1 = span_views(spans@);
    push_span(&mut spans, span(text2(' ', ' '), Style::plain()));
    let summary_style = if selected { Style::fg(Color::White) } else { Style::faint() };
    push_span(&mut spans, span(String::from_str(summary), summary_style));
    proof {
        let removed = if del > 0 { seq![removed_span(del as nat)] } else { Seq::empty() };
        assert(s1 =~= s0 + removed);
        assert(span_views(spans@) =~= edit_spans(timestamp_ms, add, del, summary@, last, selected));
    }
    finish(spans, width, selected)
}

/// The one row of a flat timeline entry: `HH:MM <abbreviated path>`, all
/// reversed when `selected`, the time dimmed.
pub open spec fn entry_view(
    timestamp_ms: i64,
    file: Seq<char>,
    worktree: Seq<char>,
    width: u16,
    selected: bool,
) -> Seq<(Seq<char>, Style)> {
    let path = abbreviated(relative_text(file, worktree), sat_sub(width as int, 6));
    let style = if selected { Style { reversed: true, ..plain() } } else { plain() };
    let time_style = if selected { Style { reversed: true, dim: true, ..plain() } } else { dimmed() };
    seq![(clock_text(timestamp_ms as int), time_style), (seq![' '], style), (path, style)]
}

/// One bar row: `HH:MM <abbreviated path>`, reversed when `selected`.
pub fn entry_lines(ev: &ChangeEvent, worktree: &str, width: u16, selected: bool) -> (res: Vec<Line>)
    ensures
        line_views(res@) == seq![entry_view(ev.timestamp_ms, ev.file_path@, worktree@, width, selected)],
{
    let rel = relative_display(ev.file_path.as_str(), worktree);
    let path_budget = (width as usize).saturating_sub(6);
    let path = abbreviate_path(rel.as_str(), path_budget);
    let style = if selected {
        Style { fg: None, bg: None, bold: false, dim: false, reversed: true }
    } else {
        Style::plain()
    };
    let time_style = if selected {
        Style { fg: None, bg: None, bold: false, dim: true, reversed: true }
    } else {
        Style::dimmed()
    };
    let mut spans: Vec<Span> = Vec::new();
    push_span(&mut spans, span(hhmm(ev.timestamp_ms), time_style));
    let mut blank = String::new();
    push_char(&mut blank, ' ');
    push_span(&mut spans, span(blank, style));
    push_span(&mut spans, span(path, style));
    let line = Line { spans };
    assert(line@ =~= entry_view(ev.timestamp_ms, ev.file_path@, worktree@, width, selected));
    let mut out: Vec<Line> = Vec::new();
    out.push(line);
    assert(line_views(out@) =~= seq![entry_view(ev.timestamp_ms, ev.file_path@, worktree@, width, selected)]);
    out
}

// ── diff pane ────────────────────────────────────────────────────────────

/// The colour of a token of kind `kind`.
pub open spec fn token_style(kind: TokenKind) -> Style {
    match kind {
        TokenKind::Keyword => tinted(Color::Magenta),
        TokenKind::Str => tinted(Color::Yellow),
        TokenKind::Comment => tinted(Color::DarkGray),
        TokenKind::Number => tinted(Color::Cyan),
        TokenKind::Default => plain(),
    }
}

fn style_for(kind: TokenKind) -> (s: Style)
    ensures
        s == token_style(kind),
{
    match kind {
        TokenKind::Keyword => Style::fg(Color::Magenta),
        TokenKind::Str => Style::fg(Color::Yellow),
        TokenKind::Comment => Style::fg(Color::DarkGray),
        TokenKind::Number => Style::fg(Color::Cyan),
        TokenKind::Default => Style::plain(),
    }
}

/// One span per token, coloured by its kind.
pub open spec fn token_views(code: Seq<Token>) -> Seq<(Seq<char>, Style)> {
    code.map_values(|t: Token| (t.text@, token_style(t.kind)))
}

/// Appends the spans of `code` to `spans`.
fn push_tokens(spans: &mut Vec<Span>, code: &Vec<Token>)
    ensures
        span_views(final(spans)@) == span_views(old(spans)@) + token_views(code@),
{
    let ghost start = span_views(spans@);
    let mut i: usize = 0;
    while i < code.len()
        invariant
            i <= code@.len(),
            span_views(spans@) == start + token_views(code@).subrange(0, i as int),
        decreases code@.len() - i,
    {
        let t = &code[i];
        push_span(spans, span(t.text.clone(), style_for(t.kind)));
        i = i + 1;
        assert(span_views(spans@) =~= start + token_views(code@).subrange(0, i as int));
    }
    assert(token_views(code@).subrange(0, code@.len() as int) =~= token_views(code@));
}

/// The marker text and style of a block-diff line.
pub open spec fn marker_span(m: DiffMarker) -> (Seq<char>, Style) {
    match m {
        DiffMarker::Added => (seq!['+', ' '], tinted(Color::Green)),
        DiffMarker::Removed => (seq!['-', ' '], tinted(Color::Red)),
    }
}

/// A block-diff line: dim gutter, coloured marker, highlighted code.
pub open spec fn diff_line_view(dl: DiffLine) -> Seq<(Seq<char>, Style)> {
    seq![(dl.gutter@, dimmed()), marker_span(dl.marker)] + token_views(dl.code@)
}

fn diff_line_to_line(dl: &DiffLine) -> (res: Line)
    ensures
        res@ == diff_line_view(*dl),
{
    let mut spans: Vec<Span> = Vec::new();
    push_span(&mut spans, span(dl.gutter.clone(), Style::dimmed()));
    let marker = match dl.marker {
        DiffMarker::Added => span(text2('+', ' '), Style::fg(Color::Green)),
        DiffMarker::Removed => span(text2('-', ' '), Style::fg(Color::Red)),
    };
    push_span(&mut spans, marker);
    let ghost s0 = span_views(spans@);
    push_tokens(&mut spans, &dl.code);
    proof {
        assert(s0 =~= seq![(dl.gutter@, dimmed()), marker_span(dl.marker)]);
    }
    Line { spans }
}

/// The styled lines of a block diff, one per diff line.
pub fn change_detail_lines_styled(lines: &[DiffLine]) -> (res: Vec<Line>)
    ensures
        line_views(res@) == lines@.map_values(|dl: DiffLine| diff_line_view(dl)),
{
    let mut out: Vec<Line> = Vec::new();
    let mut i: usize = 0;
    while i < lines.len()
        invariant
            i <= lines@.len(),
            line_views(out@) == lines@.map_values(|dl: DiffLine| diff_line_view(dl)).subrange(0, i as int),
        decreases lines@.len() - i,
    {
        let ghost before = line_views(out@);
        let l = diff_line_to_line(&lines[i]);
        assert(l@ == diff_line_view(lines@[i as int]));
        out.push(l);
        assert(line_views(out@) =~= before.push(l@));
        i = i + 1;
        assert(line_views(out@) =~= lines@.map_values(|dl: DiffLine| diff_line_view(dl)).subrange(0, i as int));
    }
    assert(lines@.map_values(|dl: DiffLine| diff_line_view(dl)).subrange(0, lines@.len() as int)
        =~= lines@.map_values(|dl: DiffLine| diff_line_view(dl)));
    out
}

/// The marker text and style of a side-by-side cell.
pub open spec fn cell_marker_span(k: CellKind) -> (Seq<char>, Style) {
    match k {
        CellKind::Added => (seq!['+', ' '], tinted(Color::Green)),
        CellKind::Removed => (seq!['-', ' '], tinted(Color::Red)),
        CellKind::Context => (seq![' ', ' '], plain()),
    }
}

/// A side-by-side cell as a row; no cell is an empty row (a blank column).
pub open spec fn side_cell_view(cell: Option<DiffCell>) -> Seq<(Seq<char>, Style)> {
    match cell {
        Some(c) => seq![(c.gutter@, dimmed()), cell_marker_span(c.kind)] + token_views(c.code@),
        None => Seq::empty(),
    }
}

/// Maps one side-by-side cell to a styled line, with the same gutter, marker
/// and colours as a block-diff line; `None` yields an empty line.
pub fn side_cell_to_line(cell: Option<&DiffCell>) -> (res: Line)
    ensures
        res@ == side_cell_view(match cell {
            Some(c) => Some(*c),
            None => None,
        }),
{
    let c = match cell {
        Some(c) => c,
        None => {
            let empty = Line { spans: Vec::new() };
            assert(empty@ =~= Seq::<(Seq<char>, Style)>::empty());
            return empty;
        },
    };
    let mut spans: Vec<Span> = Vec::new();
    push_span(&mut spans, span(c.gutter.clone(), Style::dimmed()));
    let marker = match c.kind {
        CellKind::Added => span(text2('+', ' '), Style::fg(Color::Green)),
        CellKind::Removed => span(text2('-', ' '), Style::fg(Color::Red)),
        CellKind::Context => span(text2(' ', ' '), Style::plain()),
    };
    push_span(&mut spans, marker);
    let ghost s0 = span_views(spans@);
    push_tokens(&mut spans, &c.code);
    proof {
        assert(s0 =~= seq![(c.gutter@, dimmed()), cell_marker_span(c.kind)]);
    }
    Line { spans }
}

/// How many of `lines` carry marker `m`.
pub open spec fn count_marked(lines: Seq<DiffLine>, m: DiffMarker) -> nat
    decreases lines.len(),
{
    if lines.len() == 0 {
        0
    } else {
        count_marked(lines.drop_last(), m) + if lines.last().marker == m { 1nat } else { 0nat }
    }
}

/// The lines of `lines` whose marker is `m`.
pub open spec fn marked_lines(lines: Seq<DiffLine>, m: DiffMarker) -> Seq<DiffLine> {
    lines.filter(|l: DiffLine| l.marker == m)
}

/// Every diff line counts once, whatever its code: the count for a marker
/// is the number of lines carrying it, and the added and removed counts
/// together are the number of lines.
pub proof fn law_counts_partition_lines(lines: Seq<DiffLine>)
    ensures
        count_marked(lines, DiffMarker::Added) == marked_lines(lines, DiffMarker::Added).len(),
        count_marked(lines, DiffMarker::Removed) == marked_lines(lines, DiffMarker::Removed).len(),
        count_marked(lines, DiffMarker::Added) + count_marked(lines, DiffMarker::Removed) == lines.len(),
    decreases lines.len(),
{
    if lines.len() > 0 {
        law_counts_partition_lines(lines.drop_last());
        lemma_marked_last(lines, DiffMarker::Added);
        lemma_marked_last(lines, DiffMarker::Removed);
    }
}

proof fn lemma_marked_last(lines: Seq<DiffLine>, m: DiffMarker)
    requires
        lines.len() > 0,
    ensures
        marked_lines(lines, m).len() == marked_lines(lines.drop_last(), m).len() + if lines.last().marker == m {
            1int
        } else {
            0int
        },
{
    let pred = |l: DiffLine| l.marker == m;
    assert(marked_lines(lines, m) == lines.filter(pred));
    assert(marked_lines(lines.drop_last(), m) == lines.drop_last().filter(pred));
    assert(lines.drop_last().push(lines.last()) =~= lines);
    lines.drop_last().lemma_filter_push(lines.last(), pred);
}

/// Added and removed line counts of a change's diff: `(added, removed)`.
pub fn change_counts(lines: &[DiffLine]) -> (res: (u32, u32))
    requires
        lines@.len() <= u32::MAX,
    ensures
        res.0 == count_marked(lines@, DiffMarker::Added),
        res.1 == count_marked(lines@, DiffMarker::Removed),
{
    let mut add: u32 = 0;
    let mut del: u32 = 0;
    let mut i: usize = 0;
    while i < lines.len()
        invariant
            i <= lines@.len(),
            lines@.len() <= u32::MAX,
            add == count_marked(lines@.subrange(0, i as int), DiffMarker::Added),
            del == count_marked(lines@.subrange(0, i as int), DiffMarker::Removed),
            add + del == i,
        decreases lines@.len() - i,
    {
        proof {
            assert(lines@.subrange(0, i + 1).drop_last() =~= lines@.subrange(0, i as int));
        }
        match lines[i].marker {
            DiffMarker::Added => add = add + 1,
            DiffMarker::Removed => del = del + 1,
        }
        i = i + 1;
    }
    assert(lines@.subrange(0, lines@.len() as int) =~= lines@);
    (add, del)
}

// ── chrome ───────────────────────────────────────────────────────────────

/// The key hints of the footer while the list has the focus.
pub open spec fn list_hints() -> Seq<char> {
    " ↑↓ move · enter diff · d view · e edit · tab focus · q quit "@
}

/// The key hints of the footer while the diff has the focus.
pub open spec fn diff_hints() -> Seq<char> {
    " ↑↓/PgUp/PgDn scroll · d view · e edit · tab focus list · q quit "@
}

/// The footer text: a transient status takes over until the next keypress;
/// otherwise the key hints for the focused pane.
pub fn footer_text(app: &App) -> (res: String)
    ensures
        res@ == match app.status {
            Some(s) => s@,
            None => if app.focus == Focus::List { list_hints() } else { diff_hints() },
        },
{
    match &app.status {
        Some(status) => status.clone(),
        None => match app.focus {
            Focus::List => String::from_str(" ↑↓ move · enter diff · d view · e edit · tab focus · q quit "),
            Focus::Diff => String::from_str(" ↑↓/PgUp/PgDn scroll · d view · e edit · tab focus list · q quit "),
        },
    }
}

/// The braille spinner frame shown for tick `frame`.
pub open spec fn spinner_glyph(frame: nat) -> char {
    let i = frame % 9;
    if i == 0 { '⠋' }
    else if i == 1 { '⠙' }
    else if i == 2 { '⠹' }
    else if i == 3 { '⠸' }
    else if i == 4 { '⠼' }
    else if i == 5 { '⠴' }
    else if i == 6 { '⠦' }
    else if i == 7 { '⠧' }
    else { '⠇' }
}

fn spinner_char(frame: usize) -> (c: char)
    ensures
        c == spinner_glyph(frame as nat),
{
    let i = frame % 9;
    if i == 0 { '⠋' }
    else if i == 1 { '⠙' }
    else if i == 2 { '⠹' }
    else if i == 3 { '⠸' }
    else if i == 4 { '⠼' }
    else if i == 5 { '⠴' }
    else if i == 6 { '⠦' }
    else if i == 7 { '⠧' }
    else { '⠇' }
}

/// The status strip: `● chronox  <worktree>   <spinner> live · polling 1s
/// +<added> -<removed>   <N> changes · <M> files`.
pub open spec fn status_strip_view(
    worktree: Seq<char>,
    add: u32,
    del: u32,
    changes: usize,
    files: usize,
    frame: usize,
) -> Seq<(Seq<char>, Style)> {
    let green = tinted(Color::Green);
    seq![
        ("● "@, green),
        ("chronox  "@, Style { bold: true, ..plain() }),
        (worktree, faint()),
        ("   "@, plain()),
        (seq![spinner_glyph(frame as nat)] + " live"@, green),
        (" · polling 1s"@, faint()),
        ("   "@, plain()),
        (seq!['+'] + decimal(add as nat), green),
        (seq![' ', '-'] + decimal(del as nat), tinted(Color::Red)),
        ("   "@, plain()),
        (decimal(changes as nat) + " changes · "@ + decimal(files as nat) + " files"@, faint()),
    ]
}

/// The status strip line for the session totals and tick `frame`.
pub fn status_strip(worktree: &str, add: u32, del: u32, changes: usize, files: usize, frame: usize) -> (res: Line)
    ensures
        res@ == status_strip_view(worktree@, add, del, changes, files, frame),
{
    let green = Style::fg(Color::Green);
    let mut spans: Vec<Span> = Vec::new();
    push_span(&mut spans, span_str("● ", green));
    push_span(
        &mut spans,
        span_str("chronox  ", Style { fg: None, bg: None, bold: true, dim: false, reversed: false }),
    );
    push_span(&mut spans, span_str(worktree, Style::faint()));
    push_span(&mut spans, span_str("   ", Style::plain()));
    let mut live = String::new();
    push_char(&mut live, spinner_char(frame));
    live.append(" live");
    push_span(&mut spans, span(live, green));
    push_span(&mut spans, span_str(" · polling 1s", Style::faint()));
    push_span(&mut spans, span_str("   ", Style::plain()));
    push_span(&mut spans, span(with_number(&['+'], add as u64), green));
    push_span(&mut spans, span(with_number(&[' ', '-'], del as u64), Style::fg(Color::Red)));
    push_span(&mut spans, span_str("   ", Style::plain()));
    let mut counts = String::new();
    push_decimal(&mut counts, changes as u64);
    counts.append(" changes · ");
    push_decimal(&mut counts, files as u64);
    counts.append(" files");
    push_span(&mut spans, span(counts, Style::faint()));
    proof {
        assert(['+']@ =~= seq!['+']);
        assert([' ', '-']@ =~= seq![' ', '-']);
    }
    let line = Line { spans };
    assert(line@ =~= status_strip_view(worktree@, add, del, changes, files, frame));
    line
}


// ── windows ──────────────────────────────────────────────────────────────

/// How many rows a window of at most `rows` rows, starting at row `scroll`,
/// shows of a list of `len` rows.
pub open spec fn window_len(len: nat, scroll: nat, rows: nat) -> nat {
    if scroll >= len {
        0
    } else if len - scroll < rows {
        (len - scroll) as nat
    } else {
        rows
    }
}

/// A window shows only rows of the list, at most `rows` of them, and stops
/// short of `rows` only at the end of the list.
pub proof fn law_window(len: nat, scroll: nat, rows: nat)
    ensures
        window_len(len, scroll, rows) <= rows,
        window_len(len, scroll, rows) > 0 ==> scroll + window_len(len, scroll, rows) <= len,
        window_len(len, scroll, rows) < rows ==> scroll + window_len(len, scroll, rows) >= len,
{
}

/// Every row of `visible` names a group, or an event with its counts under
/// an active group, that exists.
pub open spec fn rows_resolve(
    groups: Seq<FileGroup>,
    events: Seq<ChangeEvent>,
    counts: Seq<(u32, u32)>,
    visible: Seq<VisibleRow>,
    active: usize,
) -> bool {
    forall|i: int|
        0 <= i < visible.len() ==> match #[trigger] visible[i] {
            VisibleRow::Header { group } => group < groups.len(),
            VisibleRow::Edit { event } => event < events.len() && event < counts.len() && active
                < groups.len(),
        }
}

/// List row `row`, finished to `width`: a file header, expanded and
/// highlighted when it is the active file, or an edit row of the active file,
/// with the corner connector on the file's last edit.
pub open spec fn list_row_view(
    groups: Seq<FileGroup>,
    events: Seq<ChangeEvent>,
    counts: Seq<(u32, u32)>,
    worktree: Seq<char>,
    active: usize,
    row: VisibleRow,
    width: u16,
    selected: bool,
) -> Seq<(Seq<char>, Style)> {
    match row {
        VisibleRow::Header { group } => {
            let g = groups[group as int];
            finished(
                header_spans(
                    relative_text(g.file@, worktree),
                    g.add,
                    g.del,
                    g.event_idxs@.len() as usize,
                    g.is_new,
                    group == active,
                    group == active,
                    width,
                ),
                width as nat,
                selected,
            )
        },
        VisibleRow::Edit { event } => {
            let idxs = groups[active as int].event_idxs@;
            let last = idxs.len() > 0 && idxs.last() == event;
            let c = counts[event as int];
            let ev = events[event as int];
            finished(edit_spans(ev.timestamp_ms, c.0, c.1, ev.summary@, last, selected), width as nat, selected)
        },
    }
}

/// Every file header of the list, folded or expanded, shows its file's
/// edit count last: the row's text ends with two blanks and the decimal
/// count of the group's edits, followed only by the blanks that pad the row.
pub proof fn law_header_rows_show_edit_count(
    groups: Seq<FileGroup>,
    events: Seq<ChangeEvent>,
    counts: Seq<(u32, u32)>,
    worktree: Seq<char>,
    active: usize,
    group: usize,
    width: u16,
    selected: bool,
)
    requires
        group < groups.len(),
    ensures
        exists|pad: nat|
            has_suffix(
                text_of(list_row_view(groups, events, counts, worktree, active, VisibleRow::Header { group }, width, selected)),
                seq![' ', ' '] + decimal(groups[group as int].event_idxs@.len()) + repeated(' ', pad),
            ),
{
    let g = groups[group as int];
    assert(g.event_idxs.len() == g.event_idxs@.len());
    let n = g.event_idxs@.len() as usize;
    let hs = header_spans(relative_text(g.file@, worktree), g.add, g.del, n, g.is_new, group == active, group == active, width);
    let c = seq![' ', ' '] + decimal(n as nat);
    let right = header_right(g.add, g.del, n);
    assert(right.last() == (c, faint()));
    assert(hs.last() == right.last());
    let used = text_len(hs);
    let pad: nat = if used < width { (width - used) as nat } else { 0 };
    let padded = if used < width { hs.push((repeated(' ', pad), plain())) } else { hs };
    if used < width {
        lemma_text_push(hs, (repeated(' ', pad), plain()));
    } else {
        assert(repeated(' ', 0) =~= Seq::<char>::empty());
    }
    lemma_background_len(padded, selection_color());
    let view = list_row_view(groups, events, counts, worktree, active, VisibleRow::Header { group }, width, selected);
    assert(text_of(view) == text_of(padded));
    assert(text_of(padded) =~= text_of(hs) + repeated(' ', pad));
    assert(text_of(hs) == text_of(hs.drop_last()) + c);
    let t = text_of(view);
    let suf = c + repeated(' ', pad);
    assert(t =~= text_of(hs.drop_last()) + suf);
    assert(t.subrange(t.len() - suf.len(), t.len() as int) =~= suf);
    assert(n as nat == groups[group as int].event_idxs@.len());
    assert(has_suffix(t, seq![' ', ' '] + decimal(groups[group as int].event_idxs@.len()) + repeated(' ', pad)));
}

proof fn lemma_finished_keeps_text(spans: Seq<(Seq<char>, Style)>, width: nat, selected: bool)
    ensures
        finished(spans, width, selected).len() >= spans.len(),
        forall|i: int| 0 <= i < spans.len() ==> (#[trigger] finished(spans, width, selected)[i]).0 == spans[i].0,
{
}

/// The parts of a list row: a file header opens with `▾ ` when it is the
/// expanded file and `▸ ` otherwise; an edit row carries, after its indent,
/// the corner connector `└ ` exactly on its file's last (oldest) edit and
/// `├ ` on the others, then the change's `HH:MM`, then, after a gap, `+`
/// and the change's own added-line count.
pub proof fn law_list_row_parts(
    groups: Seq<FileGroup>,
    events: Seq<ChangeEvent>,
    counts: Seq<(u32, u32)>,
    worktree: Seq<char>,
    active: usize,
    row: VisibleRow,
    width: u16,
    selected: bool,
)
    requires
        match row {
            VisibleRow::Header { group } => group < groups.len(),
            VisibleRow::Edit { event } => active < groups.len() && event < events.len() && event < counts.len(),
        },
    ensures
        match row {
            VisibleRow::Header { group } => list_row_view(groups, events, counts, worktree, active, row, width, selected)[0].0
                == if group == active { seq!['▾', ' '] } else { seq!['▸', ' '] },
            VisibleRow::Edit { event } => {
                let v = list_row_view(groups, events, counts, worktree, active, row, width, selected);
                let idxs = groups[active as int].event_idxs@;
                &&& v[0].0 == seq![' ', ' ']
                &&& v[1].0 == if idxs.len() > 0 && idxs[idxs.len() - 1] == event {
                    seq!['└', ' ']
                } else {
                    seq!['├', ' ']
                }
                &&& v[2].0 == clock_text(events[event as int].timestamp_ms as int)
                &&& v[3].0 == seq![' ', ' ']
                &&& v[4].0 == seq!['+'] + decimal(counts[event as int].0 as nat)
            },
        },
{
    match row {
        VisibleRow::Header { group } => {
            let g = groups[group as int];
            let hs = header_spans(
                relative_text(g.file@, worktree),
                g.add,
                g.del,
                g.event_idxs@.len() as usize,
                g.is_new,
                group == active,
                group == active,
                width,
            );
            lemma_finished_keeps_text(hs, width as nat, selected);
            assert(hs[0] == header_caret(group == active));
        },
        VisibleRow::Edit { event } => {
            let idxs = groups[active as int].event_idxs@;
            let last = idxs.len() > 0 && idxs.last() == event;
            let c = counts[event as int];
            let ev = events[event as int];
            let es = edit_spans(ev.timestamp_ms, c.0, c.1, ev.summary@, last, selected);
            lemma_finished_keeps_text(es, width as nat, selected);
            assert(es.len() >= 5);
        },
    }
}

/// The list pane's rows from row `scroll` on, at most `rows` of them, each
/// clipped to `width`; row `sel_row` is drawn selected.
pub fn list_lines(
    groups: &[FileGroup],
    events: &[ChangeEvent],
    counts: &[(u32, u32)],
    worktree: &str,
    visible: &[VisibleRow],
    active: usize,
    sel_row: usize,
    scroll: usize,
    rows: usize,
    width: u16,
) -> (res: Vec<Line>)
    requires
        rows_resolve(groups@, events@, counts@, visible@, active),
    ensures
        res@.len() == window_len(visible@.len(), scroll as nat, rows as nat),
        forall|k: int|
            0 <= k < res@.len() ==> (#[trigger] res@[k])@ == clipped(
                list_row_view(groups@, events@, counts@, worktree@, active, visible@[scroll + k], width, scroll + k == sel_row),
                width as nat,
            ),
{
    let mut out: Vec<Line> = Vec::new();
    if scroll >= visible.len() {
        return out;
    }
    let end = if visible.len() - scroll < rows { visible.len() } else { scroll + rows };
    let mut i = scroll;
    while i < end
        invariant
            scroll <= i <= end <= visible@.len(),
            end - scroll == window_len(visible@.len(), scroll as nat, rows as nat),
            out@.len() == i - scroll,
            rows_resolve(groups@, events@, counts@, visible@, active),
            forall|k: int|
                0 <= k < out@.len() ==> (#[trigger] out@[k])@ == clipped(
                    list_row_view(groups@, events@, counts@, worktree@, active, visible@[scroll + k], width, scroll + k == sel_row),
                    width as nat,
                ),
        decreases end - i,
    {
        let selected = i == sel_row;
        let row = visible[i];
        assert(visible@[i as int] == row);
        let line = match row {
            VisibleRow::Header { group } => {
                let g = &groups[group];
                let rel = relative_display(g.file.as_str(), worktree);
                header_line(
                    rel.as_str(),
                    g.add,
                    g.del,
                    g.event_idxs.len(),
                    g.is_new,
                    group == active,
                    group == active,
                    width,
                    selected,
                )
            },
            VisibleRow::Edit { event } => {
                let idxs = &groups[active].event_idxs;
                let last = idxs.len() > 0 && idxs[idxs.len() - 1] == event;
                let (add, del) = counts[event];
                let ev = &events[event];
                edit_line(ev.timestamp_ms, add, del, ev.summary.as_str(), last, selected, width)
            },
        };
        assert(line@ == list_row_view(groups@, events@, counts@, worktree@, active, row, width, selected));
        out.push(clip_line_to_width(&line, width as usize));
        i = i + 1;
    }
    out
}

/// The block diff's rows from row `scroll` on, at most `rows` of them, each
/// clipped to `width`.
pub fn window_lines(lines: &[Line], scroll: usize, rows: usize, width: usize) -> (res: Vec<Line>)
    ensures
        res@.len() == window_len(lines@.len(), scroll as nat, rows as nat),
        forall|k: int| 0 <= k < res@.len() ==> (#[trigger] res@[k])@ == clipped(lines@[scroll + k]@, width as nat),
{
    let mut out: Vec<Line> = Vec::new();
    if scroll >= lines.len() {
        return out;
    }
    let end = if lines.len() - scroll < rows { lines.len() } else { scroll + rows };
    let mut i = scroll;
    while i < end
        invariant
            scroll <= i <= end <= lines@.len(),
            end - scroll == window_len(lines@.len(), scroll as nat, rows as nat),
            out@.len() == i - scroll,
            forall|k: int| 0 <= k < out@.len() ==> (#[trigger] out@[k])@ == clipped(lines@[scroll + k]@, width as nat),
        decreases end - i,
    {
        out.push(clip_line_to_width(&lines[i], width));
        i = i + 1;
    }
    out
}

/// The side-by-side diff's rows from row `scroll` on, at most `rows` of
/// them: the old column clipped to `left_width`, the new one to
/// `right_width`. Both columns share the scroll offset and the row count.
pub fn side_by_side_lines(
    side_rows: &[SideRow],
    scroll: usize,
    rows: usize,
    left_width: usize,
    right_width: usize,
) -> (res: (Vec<Line>, Vec<Line>))
    ensures
        res.0@.len() == window_len(side_rows@.len(), scroll as nat, rows as nat),
        res.1@.len() == res.0@.len(),
        forall|k: int|
            0 <= k < res.0@.len() ==> (#[trigger] res.0@[k])@ == clipped(
                side_cell_view(side_rows@[scroll + k].left),
                left_width as nat,
            ),
        forall|k: int|
            0 <= k < res.1@.len() ==> (#[trigger] res.1@[k])@ == clipped(
                side_cell_view(side_rows@[scroll + k].right),
                right_width as nat,
            ),
{
    let mut left: Vec<Line> = Vec::new();
    let mut right: Vec<Line> = Vec::new();
    if scroll >= side_rows.len() {
        return (left, right);
    }
    let end = if side_rows.len() - scroll < rows { side_rows.len() } else { scroll + rows };
    let mut i = scroll;
    while i < end
        invariant
            scroll <= i <= end <= side_rows@.len(),
            end - scroll == window_len(side_rows@.len(), scroll as nat, rows as nat),
            left@.len() == i - scroll,
            right@.len() == i - scroll,
            forall|k: int|
                0 <= k < left@.len() ==> (#[trigger] left@[k])@ == clipped(
                    side_cell_view(side_rows@[scroll + k].left),
                    left_width as nat,
                ),
            forall|k: int|
                0 <= k < right@.len() ==> (#[trigger] right@[k])@ == clipped(
                    side_cell_view(side_rows@[scroll + k].right),
                    right_width as nat,
                ),
        decreases end - i,
    {
        let row = &side_rows[i];
        left.push(clip_line_to_width(&side_cell_to_line(row.left.as_ref()), left_width));
        right.push(clip_line_to_width(&side_cell_to_line(row.right.as_ref()), right_width));
        i = i + 1;
    }
    (left, right)
}

} // verus!
