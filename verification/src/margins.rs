//! What is drawn in the margins of a page: margin boxes, page backgrounds and print marks.
use vstd::prelude::*;

use crate::command::{emit, models, Command, CommandView};
use crate::geometry::{nearest, pt, Color, Margins, Pt, Ratio, Real, Rect, Size};
use crate::layout::below_one;
use crate::text::{decimal, decimal_text};

verus! {

broadcast use vstd::string::group_string_axioms;

// ---------------------------------------------------------------------------------------------
// Margin boxes
// ---------------------------------------------------------------------------------------------
/// The sixteen margin boxes of a page.
#[derive(Clone, Copy, Debug, PartialEq, Eq, Structural)]
pub enum MarginBoxKind {
    TopLeftCorner,
    TopLeft,
    TopCenter,
    TopRight,
    TopRightCorner,
    BottomLeftCorner,
    BottomLeft,
    BottomCenter,
    BottomRight,
    BottomRightCorner,
    LeftTop,
    LeftMiddle,
    LeftBottom,
    RightTop,
    RightMiddle,
    RightBottom,
}

/// How a text stands in its box.
#[derive(Clone, Copy, Debug, PartialEq, Eq, Structural)]
pub enum TextAlign {
    Left,
    Center,
    Right,
    Justify,
}

/// A stretch of a page in one direction: a margin, or a part of what lies between the margins.
#[derive(Clone, Copy, Debug, PartialEq, Eq, Structural)]
pub enum Band {
    /// The margin at the start.
    Before,
    /// The first half of the content.
    FirstHalf,
    /// The whole content.
    Whole,
    /// The second half of the content.
    SecondHalf,
    /// The margin at the end.
    After,
}

/// The stretch of a margin box from left to right.
pub open spec fn band_across(kind: MarginBoxKind) -> Band {
    match kind {
        MarginBoxKind::TopLeftCorner | MarginBoxKind::BottomLeftCorner | MarginBoxKind::LeftTop
        | MarginBoxKind::LeftMiddle | MarginBoxKind::LeftBottom => Band::Before,
        MarginBoxKind::TopLeft | MarginBoxKind::BottomLeft => Band::FirstHalf,
        MarginBoxKind::TopCenter | MarginBoxKind::BottomCenter => Band::Whole,
        MarginBoxKind::TopRight | MarginBoxKind::BottomRight => Band::SecondHalf,
        MarginBoxKind::TopRightCorner | MarginBoxKind::BottomRightCorner | MarginBoxKind::RightTop
        | MarginBoxKind::RightMiddle | MarginBoxKind::RightBottom => Band::After,
    }
}

/// The stretch of a margin box from top to bottom.
pub open spec fn band_down(kind: MarginBoxKind) -> Band {
    match kind {
        MarginBoxKind::TopLeftCorner | MarginBoxKind::TopLeft | MarginBoxKind::TopCenter
        | MarginBoxKind::TopRight | MarginBoxKind::TopRightCorner => Band::Before,
        MarginBoxKind::LeftTop | MarginBoxKind::RightTop => Band::FirstHalf,
        MarginBoxKind::LeftMiddle | MarginBoxKind::RightMiddle => Band::Whole,
        MarginBoxKind::LeftBottom | MarginBoxKind::RightBottom => Band::SecondHalf,
        MarginBoxKind::BottomLeftCorner | MarginBoxKind::BottomLeft | MarginBoxKind::BottomCenter
        | MarginBoxKind::BottomRight | MarginBoxKind::BottomRightCorner => Band::After,
    }
}

/// What lies between two margins.
pub open spec fn between(extent: Pt, before: Pt, after: Pt) -> Pt {
    extent.minus(before).minus(after).larger(pt(0))
}

/// Where a stretch starts, and how long it is.
pub open spec fn band_range(band: Band, extent: Pt, before: Pt, after: Pt) -> (Pt, Pt) {
    let content = between(extent, before, after);
    let half = content.part(1, 2);
    match band {
        Band::Before => (pt(0), before),
        Band::FirstHalf => (before, half),
        Band::Whole => (before, content),
        Band::SecondHalf => (before.plus(half), half),
        Band::After => (extent.minus(after), after),
    }
}

/// How the text of a margin box is aligned: toward the content in the corners, along the edge in
/// the boxes above and below, in the middle at the sides.
pub open spec fn box_align(kind: MarginBoxKind) -> TextAlign {
    match kind {
        MarginBoxKind::TopLeftCorner | MarginBoxKind::BottomLeftCorner | MarginBoxKind::TopRight
        | MarginBoxKind::BottomRight => TextAlign::Right,
        MarginBoxKind::TopRightCorner | MarginBoxKind::BottomRightCorner | MarginBoxKind::TopLeft
        | MarginBoxKind::BottomLeft => TextAlign::Left,
        _ => TextAlign::Center,
    }
}

/// The margin box without a width of its own.
pub open spec fn natural_box(page: Size, m: Margins, kind: MarginBoxKind) -> Rect {
    let across = band_range(band_across(kind), page.width, m.left, m.right);
    let down = band_range(band_down(kind), page.height, m.top, m.bottom);
    Rect { x: across.0, y: down.0, width: across.1, height: down.1 }
}

/// The margin box with a width of its own, which only the boxes above and below the content heed:
/// they keep to their side of the page, or to its middle.
pub open spec fn margin_box(
    page: Size,
    m: Margins,
    kind: MarginBoxKind,
    width: Option<Pt>,
) -> Rect {
    let r = natural_box(page, m, kind);
    match width {
        None => r,
        Some(asked) => {
            let w = asked.larger(pt(0)).smaller(page.width);
            match band_across(kind) {
                Band::FirstHalf => Rect { x: r.x, y: r.y, width: w, height: r.height },
                Band::Whole => Rect {
                    x: page.width.minus(w).part(1, 2),
                    y: r.y,
                    width: w,
                    height: r.height,
                },
                Band::SecondHalf => Rect {
                    x: page.width.minus(w),
                    y: r.y,
                    width: w,
                    height: r.height,
                },
                _ => r,
            }
        },
    }
}

fn across_of(kind: MarginBoxKind) -> (r: Band)
    ensures
        r == band_across(kind),
{
    match kind {
        MarginBoxKind::TopLeftCorner => Band::Before,
        MarginBoxKind::BottomLeftCorner => Band::Before,
        MarginBoxKind::LeftTop => Band::Before,
        MarginBoxKind::LeftMiddle => Band::Before,
        MarginBoxKind::LeftBottom => Band::Before,
        MarginBoxKind::TopLeft => Band::FirstHalf,
        MarginBoxKind::BottomLeft => Band::FirstHalf,
        MarginBoxKind::TopCenter => Band::Whole,
        MarginBoxKind::BottomCenter => Band::Whole,
        MarginBoxKind::TopRight => Band::SecondHalf,
        MarginBoxKind::BottomRight => Band::SecondHalf,
        _ => Band::After,
    }
}

fn down_of(kind: MarginBoxKind) -> (r: Band)
    ensures
        r == band_down(kind),
{
    match kind {
        MarginBoxKind::TopLeftCorner => Band::Before,
        MarginBoxKind::TopLeft => Band::Before,
        MarginBoxKind::TopCenter => Band::Before,
        MarginBoxKind::TopRight => Band::Before,
        MarginBoxKind::TopRightCorner => Band::Before,
        MarginBoxKind::LeftTop => Band::FirstHalf,
        MarginBoxKind::RightTop => Band::FirstHalf,
        MarginBoxKind::LeftMiddle => Band::Whole,
        MarginBoxKind::RightMiddle => Band::Whole,
        MarginBoxKind::LeftBottom => Band::SecondHalf,
        MarginBoxKind::RightBottom => Band::SecondHalf,
        _ => Band::After,
    }
}

fn align_of(kind: MarginBoxKind) -> (r: TextAlign)
    ensures
        r == box_align(kind),
{
    match kind {
        MarginBoxKind::TopLeftCorner => TextAlign::Right,
        MarginBoxKind::BottomLeftCorner => TextAlign::Right,
        MarginBoxKind::TopRight => TextAlign::Right,
        MarginBoxKind::BottomRight => TextAlign::Right,
        MarginBoxKind::TopRightCorner => TextAlign::Left,
        MarginBoxKind::BottomRightCorner => TextAlign::Left,
        MarginBoxKind::TopLeft => TextAlign::Left,
        MarginBoxKind::BottomLeft => TextAlign::Left,
        _ => TextAlign::Center,
    }
}

fn range_of(band: Band, extent: Pt, before: Pt, after: Pt) -> (r: (Pt, Pt))
    ensures
        r == band_range(band, extent, before, after),
{
    let content = extent.minus(before).minus(after).larger(Pt::zero());
    let half = content.mul_ratio(1, 2);
    match band {
        Band::Before => (Pt::zero(), before),
        Band::FirstHalf => (before, half),
        Band::Whole => (before, content),
        Band::SecondHalf => (before.plus(half), half),
        Band::After => (extent.minus(after), after),
    }
}

/// The rectangle of a margin box, and how its text is aligned.
pub fn page_margin_box_rect(
    page_size: Size,
    margins: Margins,
    kind: MarginBoxKind,
    width_override: Option<Pt>,
) -> (r: (Rect, TextAlign))
    ensures
        r.0 == margin_box(page_size, margins, kind, width_override),
        r.1 == box_align(kind),
{
    let band = across_of(kind);
    let across = range_of(band, page_size.width, margins.left, margins.right);
    let down = range_of(down_of(kind), page_size.height, margins.top, margins.bottom);
    let mut rect = Rect { x: across.0, y: down.0, width: across.1, height: down.1 };
    match width_override {
        Some(asked) => {
            let width = asked.larger(Pt::zero()).smaller(page_size.width);
            match band {
                Band::FirstHalf => {
                    rect.width = width;
                },
                Band::Whole => {
                    rect.x = page_size.width.minus(width).mul_ratio(1, 2);
                    rect.width = width;
                },
                Band::SecondHalf => {
                    rect.x = page_size.width.minus(width);
                    rect.width = width;
                },
                _ => {},
            }
        },
        None => {},
    }
    (rect, align_of(kind))
}

/// Lengths that a page can have: not negative, and far from the ends of the range.
pub open spec fn is_page_length(p: Pt) -> bool {
    0 <= p.milli <= 0x1000_0000_0000_0000
}

/// The margins leave room for content.
pub open spec fn margins_fit(page: Size, m: Margins) -> bool {
    &&& is_page_length(page.width)
    &&& is_page_length(page.height)
    &&& is_page_length(m.left)
    &&& is_page_length(m.right)
    &&& is_page_length(m.top)
    &&& is_page_length(m.bottom)
    &&& m.left.milli + m.right.milli <= page.width.milli
    &&& m.top.milli + m.bottom.milli <= page.height.milli
}

/// The content area of a page.
pub open spec fn content_area(page: Size, m: Margins) -> Rect {
    Rect {
        x: m.left,
        y: m.top,
        width: between(page.width, m.left, m.right),
        height: between(page.height, m.top, m.bottom),
    }
}

/// Two rectangles share no area.
pub open spec fn are_apart(a: Rect, b: Rect) -> bool {
    ||| a.x.milli + a.width.milli <= b.x.milli
    ||| b.x.milli + b.width.milli <= a.x.milli
    ||| a.y.milli + a.height.milli <= b.y.milli
    ||| b.y.milli + b.height.milli <= a.y.milli
}

/// A margin box stays out of the content area, whatever width it is given, and on the page unless
/// it is given one.
pub proof fn margin_boxes_avoid_content(
    page: Size,
    m: Margins,
    kind: MarginBoxKind,
    width: Option<Pt>,
)
    requires
        margins_fit(page, m),
    ensures
        are_apart(margin_box(page, m, kind, width), content_area(page, m)),
        ({
            let r = margin_box(page, m, kind, None);
            &&& 0 <= r.x.milli
            &&& r.x.milli + r.width.milli <= page.width.milli
            &&& 0 <= r.y.milli
            &&& r.y.milli + r.height.milli <= page.height.milli
        }),
{
}

/// A place from top to bottom or from left to right is another one, but for the thousandth of a point
/// that halving can lose.
pub open spec fn is_about(a: int, b: int) -> bool {
    a <= b <= a + 1
}

/// The two boxes share the content between them: the first starts where it starts, the second starts
/// where the first ends, both are equally long, and the second ends where the content ends.
pub open spec fn share_content(
    start: int,
    end: int,
    a: int,
    a_len: int,
    b: int,
    b_len: int,
) -> bool {
    &&& a == start
    &&& b == a + a_len
    &&& a_len == b_len
    &&& a_len >= 0
    &&& is_about(b + b_len, end)
}

/// Without a width of their own the left and the right box of one margin share no area, nor do the
/// upper and the lower box at one side. Together they span the content: the right box ends at its
/// right edge, and the lower box at its lower edge.
pub proof fn boxes_of_one_margin_are_apart(page: Size, m: Margins)
    requires
        margins_fit(page, m),
    ensures
        ({
            let top_left = margin_box(page, m, MarginBoxKind::TopLeft, None);
            let top_right = margin_box(page, m, MarginBoxKind::TopRight, None);
            let bottom_left = margin_box(page, m, MarginBoxKind::BottomLeft, None);
            let bottom_right = margin_box(page, m, MarginBoxKind::BottomRight, None);
            let left_top = margin_box(page, m, MarginBoxKind::LeftTop, None);
            let left_bottom = margin_box(page, m, MarginBoxKind::LeftBottom, None);
            let right_top = margin_box(page, m, MarginBoxKind::RightTop, None);
            let right_bottom = margin_box(page, m, MarginBoxKind::RightBottom, None);
            let x0 = m.left.milli as int;
            let x1 = page.width.milli - m.right.milli;
            let y0 = m.top.milli as int;
            let y1 = page.height.milli - m.bottom.milli;
            &&& are_apart(top_left, top_right)
            &&& are_apart(bottom_left, bottom_right)
            &&& are_apart(left_top, left_bottom)
            &&& are_apart(right_top, right_bottom)
            &&& share_content(
                x0,
                x1,
                top_left.x.milli as int,
                top_left.width.milli as int,
                top_right.x.milli as int,
                top_right.width.milli as int,
            )
            &&& share_content(
                x0,
                x1,
                bottom_left.x.milli as int,
                bottom_left.width.milli as int,
                bottom_right.x.milli as int,
                bottom_right.width.milli as int,
            )
            &&& share_content(
                y0,
                y1,
                left_top.y.milli as int,
                left_top.height.milli as int,
                left_bottom.y.milli as int,
                left_bottom.height.milli as int,
            )
            &&& share_content(
                y0,
                y1,
                right_top.y.milli as int,
                right_top.height.milli as int,
                right_bottom.y.milli as int,
                right_bottom.height.milli as int,
            )
        }),
{
}

/// The box stands in the margin above the content.
pub open spec fn is_upper(kind: MarginBoxKind) -> bool {
    kind == MarginBoxKind::TopLeftCorner || kind == MarginBoxKind::TopLeft || kind
        == MarginBoxKind::TopCenter || kind == MarginBoxKind::TopRight || kind
        == MarginBoxKind::TopRightCorner
}

/// The box stands in the margin below the content.
pub open spec fn is_lower(kind: MarginBoxKind) -> bool {
    kind == MarginBoxKind::BottomLeftCorner || kind == MarginBoxKind::BottomLeft || kind
        == MarginBoxKind::BottomCenter || kind == MarginBoxKind::BottomRight || kind
        == MarginBoxKind::BottomRightCorner
}

/// The box stands in the margin to the left of the content.
pub open spec fn is_left(kind: MarginBoxKind) -> bool {
    kind == MarginBoxKind::TopLeftCorner || kind == MarginBoxKind::BottomLeftCorner || kind
        == MarginBoxKind::LeftTop || kind == MarginBoxKind::LeftMiddle || kind
        == MarginBoxKind::LeftBottom
}

/// The box stands in the margin to the right of the content.
pub open spec fn is_right(kind: MarginBoxKind) -> bool {
    kind == MarginBoxKind::TopRightCorner || kind == MarginBoxKind::BottomRightCorner || kind
        == MarginBoxKind::RightTop || kind == MarginBoxKind::RightMiddle || kind
        == MarginBoxKind::RightBottom
}

/// Every box fills its margin from the edge of the page to the content, whatever width it is given.
/// The middle boxes span the whole content.
pub proof fn boxes_fill_their_margin(page: Size, m: Margins, kind: MarginBoxKind, width: Option<Pt>)
    requires
        margins_fit(page, m),
    ensures
        ({
            let r = margin_box(page, m, kind, width);
            &&& is_upper(kind) ==> r.y.milli == 0 && r.height == m.top
            &&& is_lower(kind) ==> r.y.milli + r.height.milli == page.height.milli && r.height
                == m.bottom
            &&& is_left(kind) ==> r.x.milli == 0 && r.width == m.left
            &&& is_right(kind) ==> r.x.milli + r.width.milli == page.width.milli && r.width
                == m.right
            &&& kind == MarginBoxKind::LeftMiddle || kind == MarginBoxKind::RightMiddle ==> r.y
                == m.top && r.y.milli + r.height.milli == page.height.milli - m.bottom.milli
            &&& is_upper(kind) || is_lower(kind) || is_left(kind) || is_right(kind)
            &&& (kind == MarginBoxKind::TopCenter || kind == MarginBoxKind::BottomCenter) && width
                is None ==> r.x == m.left && r.x.milli + r.width.milli == page.width.milli
                - m.right.milli
        }),
{
}

/// A width that is asked for is heeded above and below the content, as far as the page is wide: a
/// left box keeps its start, a right box ends at the edge of the page, and a middle box stands in
/// the middle of the page. At the sides and in the corners it changes nothing.
pub proof fn asked_widths_are_heeded(page: Size, m: Margins, kind: MarginBoxKind, asked: Pt)
    requires
        margins_fit(page, m),
    ensures
        ({
            let r = margin_box(page, m, kind, Some(asked));
            let own = margin_box(page, m, kind, None);
            let wide = !is_left(kind) && !is_right(kind);
            &&& !wide ==> r == own
            &&& wide && 0 <= asked.milli <= page.width.milli ==> r.width == asked
            &&& wide && asked.milli < 0 ==> r.width.milli == 0
            &&& wide && asked.milli > page.width.milli ==> r.width == page.width
            &&& kind == MarginBoxKind::TopLeft || kind == MarginBoxKind::BottomLeft ==> r.x == own.x
            &&& kind == MarginBoxKind::TopRight || kind == MarginBoxKind::BottomRight ==> r.x.milli
                + r.width.milli == page.width.milli
            &&& kind == MarginBoxKind::TopCenter || kind == MarginBoxKind::BottomCenter ==> is_about(
                2 * r.x.milli + r.width.milli,
                page.width.milli as int,
            )
        }),
{
}

/// The place at which the text of a box is anchored, counted twice over.
pub open spec fn anchor(r: Rect, align: TextAlign) -> int {
    match align {
        TextAlign::Left | TextAlign::Justify => 2 * r.x.milli,
        TextAlign::Center => 2 * r.x.milli + r.width.milli,
        TextAlign::Right => 2 * (r.x.milli + r.width.milli),
    }
}

/// Text above and below the content keeps to the edges of the content: that of the left boxes and of
/// the left corners to its left edge, that of the right ones to its right edge, and that of the
/// middle boxes to its middle. Text at the sides keeps to the middle of the margin.
pub proof fn margin_text_keeps_to_the_content(page: Size, m: Margins, kind: MarginBoxKind)
    requires
        margins_fit(page, m),
    ensures
        ({
            let at = anchor(margin_box(page, m, kind, None), box_align(kind));
            let x0 = m.left.milli as int;
            let x1 = page.width.milli - m.right.milli;
            &&& kind == MarginBoxKind::TopLeft || kind == MarginBoxKind::BottomLeft || kind
                == MarginBoxKind::TopLeftCorner || kind == MarginBoxKind::BottomLeftCorner ==> at
                == 2 * x0
            &&& kind == MarginBoxKind::TopRightCorner || kind == MarginBoxKind::BottomRightCorner
                ==> at == 2 * x1
            &&& kind == MarginBoxKind::TopRight || kind == MarginBoxKind::BottomRight ==> at <= 2
                * x1 <= at + 2
            &&& kind == MarginBoxKind::TopCenter || kind == MarginBoxKind::BottomCenter ==> at == x0
                + x1
            &&& kind == MarginBoxKind::LeftTop || kind == MarginBoxKind::LeftMiddle || kind
                == MarginBoxKind::LeftBottom ==> at == m.left.milli
            &&& kind == MarginBoxKind::RightTop || kind == MarginBoxKind::RightMiddle || kind
                == MarginBoxKind::RightBottom ==> at == x1 + page.width.milli
        }),
{
}

// ---------------------------------------------------------------------------------------------
// Text in margin boxes
// ---------------------------------------------------------------------------------------------
/// The height of a line: a length, or a multiple of the font size.
#[derive(Clone, Copy, Debug, PartialEq, Eq, Structural)]
pub enum PageLineHeight {
    Absolute(Pt),
    Number(Ratio),
}

/// What the root, a page or a margin box says about its text.
#[derive(Clone, Copy, Debug, PartialEq, Eq, Structural)]
pub struct TextSettings {
    pub font_size: Option<Pt>,
    pub line_height: Option<PageLineHeight>,
    pub color: Option<Color>,
    pub font_weight: Option<u16>,
}

/// The text of a margin box.
#[derive(Clone, Copy, Debug, PartialEq, Eq, Structural)]
pub struct MarginText {
    pub font_size: Pt,
    pub line_height: Pt,
    pub line_height_is_auto: bool,
    pub color: Color,
    pub font_weight: Option<u16>,
}

/// The first value that is there: of the box, else of the page.
pub open spec fn nearest_set<T>(own: Option<T>, page: Option<T>) -> Option<T> {
    match own {
        Some(v) => Some(v),
        None => page,
    }
}

/// The first value that is there: of the box, of the page, else of the root.
pub open spec fn inherited<T>(own: Option<T>, page: Option<T>, root: T) -> T {
    match nearest_set(own, page) {
        Some(v) => v,
        None => root,
    }
}

/// The text of a margin box: what the box does not say it takes from the page, and what the page
/// does not say from the root. Without a line height, lines are six fifths of the font size.
pub open spec fn margin_text(
    own: TextSettings,
    page: TextSettings,
    root_size: Pt,
    root_line: Option<PageLineHeight>,
    root_color: Color,
) -> MarginText {
    let size = inherited(own.font_size, page.font_size, root_size);
    let line = nearest_set(nearest_set(own.line_height, page.line_height), root_line);
    MarginText {
        font_size: size,
        line_height: match line {
            Some(PageLineHeight::Absolute(v)) => v,
            Some(PageLineHeight::Number(n)) => size.scaled(n),
            None => size.part(6, 5),
        }.larger(pt(0)),
        line_height_is_auto: line is None,
        color: inherited(own.color, page.color, root_color),
        font_weight: nearest_set(own.font_weight, page.font_weight),
    }
}

/// A line height can be computed.
pub open spec fn line_is_proper(l: Option<PageLineHeight>) -> bool {
    match l {
        Some(PageLineHeight::Number(n)) => n.is_proper(),
        _ => true,
    }
}

/// Works out the text of a margin box.
pub fn margin_text_settings(
    own: &TextSettings,
    page: &TextSettings,
    root_size: Pt,
    root_line: Option<PageLineHeight>,
    root_color: Color,
) -> (r: MarginText)
    requires
        line_is_proper(own.line_height),
        line_is_proper(page.line_height),
        line_is_proper(root_line),
    ensures
        r == margin_text(*own, *page, root_size, root_line, root_color),
{
    let size = match own.font_size {
        Some(v) => v,
        None => match page.font_size {
            Some(v) => v,
            None => root_size,
        },
    };
    let line = match own.line_height {
        Some(v) => Some(v),
        None => match page.line_height {
            Some(v) => Some(v),
            None => root_line,
        },
    };
    let height = match line {
        Some(PageLineHeight::Absolute(v)) => v,
        Some(PageLineHeight::Number(n)) => size.scaled(n),
        None => size.mul_ratio(6, 5),
    };
    MarginText {
        font_size: size,
        line_height: height.larger(Pt::zero()),
        line_height_is_auto: line.is_none(),
        color: match own.color {
            Some(v) => v,
            None => match page.color {
                Some(v) => v,
                None => root_color,
            },
        },
        font_weight: match own.font_weight {
            Some(v) => Some(v),
            None => page.font_weight,
        },
    }
}

/// An element that runs into the margins.
pub struct RunningElement {
    pub width: Pt,
    pub height: Pt,
    pub resource_id: String,
}

/// A part of the content of a margin box, with names looked up.
pub enum MarginPart {
    Text(String),
    PageCounter,
    PagesCounter,
    NamedString(Option<String>),
    Running(Option<RunningElement>),
}

/// The text of a part.
pub open spec fn part_text(p: MarginPart, page_counter: nat, total_pages: nat) -> Seq<char> {
    match p {
        MarginPart::Text(t) => t@,
        MarginPart::PageCounter => decimal(page_counter),
        MarginPart::PagesCounter => decimal(total_pages),
        MarginPart::NamedString(Some(t)) => t@,
        MarginPart::NamedString(None) => Seq::empty(),
        MarginPart::Running(_) => Seq::empty(),
    }
}

/// The text of the first `n` parts.
pub open spec fn parts_text(
    parts: Seq<MarginPart>,
    page_counter: nat,
    total_pages: nat,
    n: int,
) -> Seq<char>
    decreases n,
{
    if n <= 0 {
        Seq::empty()
    } else {
        parts_text(parts, page_counter, total_pages, n - 1) + part_text(
            parts[n - 1],
            page_counter,
            total_pages,
        )
    }
}

/// The box after the first `n` parts: a box without a width of its own grows to the widest running
/// element.
pub open spec fn grown_box(
    page: Size,
    m: Margins,
    kind: MarginBoxKind,
    rect: Rect,
    parts: Seq<MarginPart>,
    n: int,
) -> Rect
    decreases n,
{
    if n <= 0 {
        rect
    } else {
        let before = grown_box(page, m, kind, rect, parts, n - 1);
        match parts[n - 1] {
            MarginPart::Running(Some(e)) => if e.width.milli > before.width.milli {
                margin_box(page, m, kind, Some(e.width))
            } else {
                before
            },
            _ => before,
        }
    }
}

/// Where a running element stands in its box.
pub open spec fn running_form(rect: Rect, align: TextAlign, e: RunningElement) -> CommandView {
    CommandView::DrawForm {
        x: match align {
            TextAlign::Left | TextAlign::Justify => rect.x,
            TextAlign::Center => rect.x.plus(rect.width.minus(e.width).part(1, 2)),
            TextAlign::Right => rect.x.plus(rect.width).minus(e.width),
        },
        y: rect.y.plus(rect.height.minus(e.height).part(1, 2)),
        width: e.width,
        height: e.height,
        resource_id: e.resource_id@,
    }
}

/// The commands after the first `n` parts: each running element is drawn.
pub open spec fn with_running(
    start: Seq<CommandView>,
    rect: Rect,
    align: TextAlign,
    parts: Seq<MarginPart>,
    n: int,
) -> Seq<CommandView>
    decreases n,
{
    if n <= 0 {
        start
    } else {
        let before = with_running(start, rect, align, parts, n - 1);
        match parts[n - 1] {
            MarginPart::Running(Some(e)) => before.push(running_form(rect, align, e)),
            _ => before,
        }
    }
}

/// Whether a single-precision number is above nought.
pub open spec fn above_zero(r: Real) -> bool {
    0 < r.bits <= 0x7f80_0000
}

/// The commands with a filled rectangle, in its own graphics state.
pub open spec fn with_fill(
    cs: Seq<CommandView>,
    color: Color,
    alpha: Real,
    x: Pt,
    y: Pt,
    width: Pt,
    height: Pt,
) -> Seq<CommandView> {
    let start = cs.push(CommandView::SaveState).push(CommandView::SetFillColor(color));
    let shaded = if below_one(alpha) {
        start.push(CommandView::SetOpacity { fill: alpha, stroke: alpha })
    } else {
        start
    };
    shaded.push(CommandView::DrawRect { x, y, width, height }).push(CommandView::RestoreState)
}

fn emit_fill(
    out: &mut Vec<Command>,
    color: Color,
    alpha: Real,
    x: Pt,
    y: Pt,
    width: Pt,
    height: Pt,
)
    ensures
        models(final(out)@) == with_fill(models(old(out)@), color, alpha, x, y, width, height),
{
    emit(out, Command::SaveState);
    emit(out, Command::SetFillColor(color));
    if alpha.bits < 0x3f80_0000 || (0x8000_0000 <= alpha.bits && alpha.bits <= 0xff80_0000) {
        emit(out, Command::SetOpacity { fill: alpha, stroke: alpha });
    }
    emit(out, Command::DrawRect { x, y, width, height });
    emit(out, Command::RestoreState);
}

/// The commands of a margin box up to its text: a state of its own, its background, and its
/// running elements.
pub open spec fn box_commands(
    rect: Rect,
    align: TextAlign,
    background: Option<(Color, Real)>,
    parts: Seq<MarginPart>,
) -> Seq<CommandView> {
    let start = Seq::<CommandView>::empty().push(CommandView::SaveState);
    let filled = match background {
        Some((color, alpha)) => if above_zero(alpha) {
            with_fill(start, color, alpha, rect.x, rect.y, rect.width, rect.height)
        } else {
            start
        },
        None => start,
    };
    with_running(filled, rect, align, parts, parts.len() as int)
}

/// A margin box on one page: what is drawn before its text, the text, and the box that it stands
/// in. The caller lays out the text and restores the graphics state.
pub struct MarginBoxPaint {
    pub commands: Vec<Command>,
    pub text: String,
    pub rect: Rect,
}

/// Paints a margin box up to its text.
pub fn margin_box_paint(
    page_size: Size,
    margins: Margins,
    kind: MarginBoxKind,
    width: Option<Pt>,
    background: Option<(Color, Real)>,
    parts: &Vec<MarginPart>,
    page_counter: u64,
    total_pages: u64,
) -> (r: MarginBoxPaint)
    ensures
        ({
            let own = margin_box(page_size, margins, kind, width);
            r.rect == (if width is None {
                grown_box(page_size, margins, kind, own, parts@, parts@.len() as int)
            } else {
                own
            })
        }),
        models(r.commands@) == box_commands(r.rect, box_align(kind), background, parts@),
        r.text@ == parts_text(
            parts@,
            page_counter as nat,
            total_pages as nat,
            parts@.len() as int,
        ),
{
    let (own, align) = page_margin_box_rect(page_size, margins, kind, width);
    let mut rect = own;
    if width.is_none() {
        let mut i: usize = 0;
        while i < parts.len()
            invariant
                i <= parts@.len(),
                rect == grown_box(page_size, margins, kind, own, parts@, i as int),
            decreases parts@.len() - i,
        {
            match &parts[i] {
                MarginPart::Running(Some(e)) => {
                    if e.width.milli > rect.width.milli {
                        rect = page_margin_box_rect(page_size, margins, kind, Some(e.width)).0;
                    }
                },
                _ => {},
            }
            i += 1;
        }
    }
    let mut out: Vec<Command> = Vec::new();
    proof {
        assert(models(out@) =~= Seq::empty());
    }
    emit(&mut out, Command::SaveState);
    match background {
        Some((color, alpha)) => {
            if 0 < alpha.bits && alpha.bits <= 0x7f80_0000 {
                emit_fill(&mut out, color, alpha, rect.x, rect.y, rect.width, rect.height);
            }
        },
        None => {},
    }
    let ghost filled = models(out@);
    let mut text = String::new();
    let mut i: usize = 0;
    while i < parts.len()
        invariant
            i <= parts@.len(),
            text@ == parts_text(parts@, page_counter as nat, total_pages as nat, i as int),
            models(out@) == with_running(filled, rect, align, parts@, i as int),
        decreases parts@.len() - i,
    {
        let ghost before = text@;
        proof {
            assert(before + Seq::<char>::empty() =~= before);
        }
        match &parts[i] {
            MarginPart::Text(t) => {
                text.append(t);
            },
            MarginPart::PageCounter => {
                text.append(&decimal_text(page_counter));
            },
            MarginPart::PagesCounter => {
                text.append(&decimal_text(total_pages));
            },
            MarginPart::NamedString(Some(t)) => {
                text.append(t);
            },
            MarginPart::NamedString(None) => {},
            MarginPart::Running(Some(e)) => {
                let x = match align {
                    TextAlign::Left => rect.x,
                    TextAlign::Justify => rect.x,
                    TextAlign::Center => rect.x.plus(rect.width.minus(e.width).mul_ratio(1, 2)),
                    TextAlign::Right => rect.x.plus(rect.width).minus(e.width),
                };
                let y = rect.y.plus(rect.height.minus(e.height).mul_ratio(1, 2));
                emit(
                    &mut out,
                    Command::DrawForm {
                        x,
                        y,
                        width: e.width,
                        height: e.height,
                        resource_id: e.resource_id.clone(),
                    },
                );
            },
            MarginPart::Running(None) => {},
        }
        i += 1;
    }
    MarginBoxPaint { commands: out, text, rect }
}

/// The upper edge of a text of the given height in its box: in the middle, also where the text is
/// higher than the box.
pub fn margin_text_y(rect: Rect, text_height: Pt) -> (y: Pt)
    ensures
        y == rect.y.plus(rect.height.minus(text_height).part(1, 2)),
{
    rect.y.plus(rect.height.minus(text_height).mul_ratio(1, 2))
}

/// Whether a margin box is drawn at all: it has content and extent.
pub fn margin_box_is_drawn(rect: Rect, part_count: usize) -> (r: bool)
    ensures
        r == (part_count > 0 && rect.width.milli > 0 && rect.height.milli > 0),
{
    part_count > 0 && rect.width.milli > 0 && rect.height.milli > 0
}

// ---------------------------------------------------------------------------------------------
// Backgrounds and marks
// ---------------------------------------------------------------------------------------------
/// The commands that fill a page and what is printed around it.
pub open spec fn page_fill(page: Size, extent: Pt, color: Color, alpha: Real) -> Seq<CommandView> {
    let none = Seq::<CommandView>::empty();
    let start = pt(0).minus(extent);
    if !is_visible(alpha) {
        none
    } else {
        with_fill(
            none,
            color,
            alpha,
            start,
            start,
            page.width.plus(extent).plus(extent),
            page.height.plus(extent).plus(extent),
        )
    }
}

/// Whether an opacity is drawn: it is not at or below nought.
pub open spec fn is_visible(r: Real) -> bool {
    !(r.bits == 0 || 0x8000_0000 <= r.bits <= 0xff80_0000)
}

/// Fills a page and what is printed around it.
pub fn page_background_commands(
    page_size: Size,
    media_extent: Pt,
    color: Color,
    alpha: Real,
) -> (out:
    Vec<Command>)
    ensures
        models(out@) == page_fill(page_size, media_extent, color, alpha),
{
    let mut out: Vec<Command> = Vec::new();
    proof {
        assert(models(out@) =~= Seq::empty());
    }
    if alpha.bits == 0 || (0x8000_0000 <= alpha.bits && alpha.bits <= 0xff80_0000) {
        return out;
    }
    let start = Pt::zero().minus(media_extent);
    emit_fill(
        &mut out,
        color,
        alpha,
        start,
        start,
        page_size.width.plus(media_extent).plus(media_extent),
        page_size.height.plus(media_extent).plus(media_extent),
    );
    out
}

/// A line from one point to another.
pub open spec fn with_line(cs: Seq<CommandView>, x1: Pt, y1: Pt, x2: Pt, y2: Pt) -> Seq<
    CommandView,
> {
    cs.push(CommandView::MoveTo { x: x1, y: y1 }).push(CommandView::LineTo { x: x2, y: y2 })
}

fn emit_line(out: &mut Vec<Command>, x1: Pt, y1: Pt, x2: Pt, y2: Pt)
    ensures
        models(final(out)@) == with_line(models(old(out)@), x1, y1, x2, y2),
{
    emit(out, Command::MoveTo { x: x1, y: y1 });
    emit(out, Command::LineTo { x: x2, y: y2 });
}

/// The crop marks at one height.
pub open spec fn crop_across(cs: Seq<CommandView>, page: Size, extent: Pt, y: Pt) -> Seq<
    CommandView,
> {
    let half = extent.part(1, 2);
    let left = with_line(cs, pt(0).minus(extent), y, pt(0).minus(half), y);
    with_line(left, page.width.plus(half), y, page.width.plus(extent), y)
}

/// The crop marks at one place from left to right.
pub open spec fn crop_down(cs: Seq<CommandView>, page: Size, extent: Pt, x: Pt) -> Seq<
    CommandView,
> {
    let half = extent.part(1, 2);
    let top = with_line(cs, x, pt(0).minus(extent), x, pt(0).minus(half));
    with_line(top, x, page.height.plus(half), x, page.height.plus(extent))
}

/// The eight crop marks of a page.
pub open spec fn with_crop(cs: Seq<CommandView>, page: Size, extent: Pt) -> Seq<CommandView> {
    let start = cs.push(CommandView::SetLineWidth(pt(750)));
    let across = crop_across(crop_across(start, page, extent, pt(0)), page, extent, page.height);
    crop_down(crop_down(across, page, extent, pt(0)), page, extent, page.width).push(
        CommandView::Stroke,
    )
}

fn emit_crop(out: &mut Vec<Command>, page: Size, extent: Pt)
    ensures
        models(final(out)@) == with_crop(models(old(out)@), page, extent),
{
    let half = extent.mul_ratio(1, 2);
    let before = Pt::zero().minus(extent);
    let inner = Pt::zero().minus(half);
    emit(out, Command::SetLineWidth(Pt { milli: 750 }));
    emit_line(out, before, Pt::zero(), inner, Pt::zero());
    emit_line(out, page.width.plus(half), Pt::zero(), page.width.plus(extent), Pt::zero());
    emit_line(out, before, page.height, inner, page.height);
    emit_line(out, page.width.plus(half), page.height, page.width.plus(extent), page.height);
    emit_line(out, Pt::zero(), before, Pt::zero(), inner);
    emit_line(out, Pt::zero(), page.height.plus(half), Pt::zero(), page.height.plus(extent));
    emit_line(out, page.width, before, page.width, inner);
    emit_line(out, page.width, page.height.plus(half), page.width, page.height.plus(extent));
    emit(out, Command::Stroke);
}

/// How far the handles of a quarter circle stand from its ends.
pub open spec fn circle_handle(radius: Pt) -> Pt {
    pt(nearest(radius.milli * 5_522_848, 10_000_000))
}

/// A circle of four curves.
pub open spec fn with_circle(cs: Seq<CommandView>, x: Pt, y: Pt, r: Pt) -> Seq<CommandView> {
    let k = circle_handle(r);
    cs.push(CommandView::MoveTo { x: x.plus(r), y }).push(
        CommandView::CurveTo {
            x1: x.plus(r),
            y1: y.plus(k),
            x2: x.plus(k),
            y2: y.plus(r),
            x,
            y: y.plus(r),
        },
    ).push(
        CommandView::CurveTo {
            x1: x.minus(k),
            y1: y.plus(r),
            x2: x.minus(r),
            y2: y.plus(k),
            x: x.minus(r),
            y,
        },
    ).push(
        CommandView::CurveTo {
            x1: x.minus(r),
            y1: y.minus(k),
            x2: x.minus(k),
            y2: y.minus(r),
            x,
            y: y.minus(r),
        },
    ).push(
        CommandView::CurveTo {
            x1: x.plus(k),
            y1: y.minus(r),
            x2: x.plus(r),
            y2: y.minus(k),
            x: x.plus(r),
            y,
        },
    ).push(CommandView::ClosePath).push(CommandView::Stroke)
}

fn emit_circle(out: &mut Vec<Command>, x: Pt, y: Pt, r: Pt)
    ensures
        models(final(out)@) == with_circle(models(old(out)@), x, y, r),
{
    let k = r.scaled(Ratio { num: 5_522_848, den: 10_000_000 });
    emit(out, Command::MoveTo { x: x.plus(r), y });
    emit(
        out,
        Command::CurveTo {
            x1: x.plus(r),
            y1: y.plus(k),
            x2: x.plus(k),
            y2: y.plus(r),
            x,
            y: y.plus(r),
        },
    );
    emit(
        out,
        Command::CurveTo {
            x1: x.minus(k),
            y1: y.plus(r),
            x2: x.minus(r),
            y2: y.plus(k),
            x: x.minus(r),
            y,
        },
    );
    emit(
        out,
        Command::CurveTo {
            x1: x.minus(r),
            y1: y.minus(k),
            x2: x.minus(k),
            y2: y.minus(r),
            x,
            y: y.minus(r),
        },
    );
    emit(
        out,
        Command::CurveTo {
            x1: x.plus(k),
            y1: y.minus(r),
            x2: x.plus(r),
            y2: y.minus(k),
            x: x.plus(r),
            y,
        },
    );
    emit(out, Command::ClosePath);
    emit(out, Command::Stroke);
}

/// The sides of a page.
#[derive(Clone, Copy, Debug, PartialEq, Eq, Structural)]
pub enum Side {
    Top,
    Bottom,
    Left,
    Right,
}

/// Where the register mark of a side stands.
pub open spec fn mark_center(page: Size, extent: Pt, side: Side) -> (Pt, Pt) {
    let offset = extent.part(3, 4);
    match side {
        Side::Top => (page.width.part(1, 2), pt(0).minus(offset)),
        Side::Bottom => (page.width.part(1, 2), page.height.plus(offset)),
        Side::Left => (pt(0).minus(offset), page.height.part(1, 2)),
        Side::Right => (page.width.plus(offset), page.height.part(1, 2)),
    }
}

/// The register mark at a center: a circle, a line along the edge, and a line out of the page.
/// Which way the line leads is read off the center itself.
pub open spec fn with_register(
    cs: Seq<CommandView>,
    page: Size,
    extent: Pt,
    x: Pt,
    y: Pt,
    along_edge: bool,
) -> Seq<CommandView> {
    let span = extent.part(1, 4);
    let outer = pt(0).minus(extent);
    let inner = outer.part(1, 2);
    let half = extent.part(1, 2);
    let circled = with_circle(
        cs.push(CommandView::SetLineWidth(extent.part(1, 32))),
        x,
        y,
        extent.part(1, 8),
    ).push(CommandView::SetLineWidth(extent.part(1, 16)));
    let crossed = if along_edge {
        let edge = with_line(circled, x.minus(span), y, x.plus(span), y);
        if y.milli < 0 {
            with_line(edge, x, outer, x, inner)
        } else {
            with_line(edge, x, page.height.plus(half), x, page.height.plus(extent))
        }
    } else {
        let edge = with_line(circled, x, y.minus(span), x, y.plus(span));
        if x.milli < 0 {
            with_line(edge, outer, y, inner, y)
        } else {
            with_line(edge, page.width.plus(half), y, page.width.plus(extent), y)
        }
    };
    crossed.push(CommandView::Stroke)
}

/// The register mark of a side.
pub open spec fn with_mark(cs: Seq<CommandView>, page: Size, extent: Pt, side: Side) -> Seq<
    CommandView,
> {
    let c = mark_center(page, extent, side);
    with_register(cs, page, extent, c.0, c.1, side == Side::Top || side == Side::Bottom)
}

fn emit_register(out: &mut Vec<Command>, page: Size, extent: Pt, x: Pt, y: Pt, along_edge: bool)
    ensures
        models(final(out)@) == with_register(models(old(out)@), page, extent, x, y, along_edge),
{
    let span = extent.mul_ratio(1, 4);
    let outer = Pt::zero().minus(extent);
    let inner = outer.mul_ratio(1, 2);
    let half = extent.mul_ratio(1, 2);
    emit(out, Command::SetLineWidth(extent.mul_ratio(1, 32)));
    emit_circle(out, x, y, extent.mul_ratio(1, 8));
    emit(out, Command::SetLineWidth(extent.mul_ratio(1, 16)));
    if along_edge {
        emit_line(out, x.minus(span), y, x.plus(span), y);
        if y.milli < 0 {
            emit_line(out, x, outer, x, inner);
        } else {
            emit_line(out, x, page.height.plus(half), x, page.height.plus(extent));
        }
    } else {
        emit_line(out, x, y.minus(span), x, y.plus(span));
        if x.milli < 0 {
            emit_line(out, outer, y, inner, y);
        } else {
            emit_line(out, page.width.plus(half), y, page.width.plus(extent), y);
        }
    }
    emit(out, Command::Stroke);
}

/// Which marks are printed around a page, and how far.
#[derive(Clone, Copy, Debug, PartialEq, Eq, Structural)]
pub struct PrintMarks {
    pub crop: bool,
    pub cross: bool,
    pub extent: Pt,
}

/// Black.
pub open spec fn black() -> Color {
    Color { r: Real { bits: 0 }, g: Real { bits: 0 }, b: Real { bits: 0 } }
}

/// The marks that are printed around a page: none where none is asked for or there is no room.
pub open spec fn print_marks(page: Size, marks: PrintMarks) -> Seq<CommandView> {
    let none = Seq::<CommandView>::empty();
    if (!marks.crop && !marks.cross) || marks.extent.milli <= 0 {
        none
    } else {
        let start = none.push(CommandView::SaveState).push(
            CommandView::BeginArtifact { subtype: Some("Pagination"@) },
        ).push(CommandView::SetStrokeColor(black())).push(CommandView::SetLineCap(0)).push(
            CommandView::SetLineJoin(0),
        );
        let cropped = if marks.crop {
            with_crop(start, page, marks.extent)
        } else {
            start
        };
        let crossed = if marks.cross {
            let top = with_mark(cropped, page, marks.extent, Side::Top);
            let bottom = with_mark(top, page, marks.extent, Side::Bottom);
            let left = with_mark(bottom, page, marks.extent, Side::Left);
            with_mark(left, page, marks.extent, Side::Right)
        } else {
            cropped
        };
        crossed.push(CommandView::EndMarkedContent).push(CommandView::RestoreState)
    }
}

/// Draws the marks that are printed around a page.
pub fn print_mark_commands(page_size: Size, marks: PrintMarks) -> (out: Vec<Command>)
    ensures
        models(out@) == print_marks(page_size, marks),
{
    let mut out: Vec<Command> = Vec::new();
    proof {
        assert(models(out@) =~= Seq::empty());
    }
    if (!marks.crop && !marks.cross) || marks.extent.milli <= 0 {
        return out;
    }
    let extent = marks.extent;
    let none = Real { bits: 0 };
    emit(&mut out, Command::SaveState);
    emit(&mut out, Command::BeginArtifact { subtype: Some("Pagination".to_owned()) });
    emit(&mut out, Command::SetStrokeColor(Color { r: none, g: none, b: none }));
    emit(&mut out, Command::SetLineCap(0));
    emit(&mut out, Command::SetLineJoin(0));
    if marks.crop {
        emit_crop(&mut out, page_size, extent);
    }
    if marks.cross {
        let offset = extent.mul_ratio(3, 4);
        let before = Pt::zero().minus(offset);
        let middle = page_size.width.mul_ratio(1, 2);
        let waist = page_size.height.mul_ratio(1, 2);
        emit_register(&mut out, page_size, extent, middle, before, true);
        emit_register(&mut out, page_size, extent, middle, page_size.height.plus(offset), true);
        emit_register(&mut out, page_size, extent, before, waist, false);
        emit_register(&mut out, page_size, extent, page_size.width.plus(offset), waist, false);
    }
    emit(&mut out, Command::EndMarkedContent);
    emit(&mut out, Command::RestoreState);
    out
}

// ---------------------------------------------------------------------------------------------
// Laws
// ---------------------------------------------------------------------------------------------
/// A margin box takes its own settings before those of the page, and those of the page before those
/// of the root. A line height that is a number is taken of the font size that the box itself has.
pub proof fn settings_are_inherited(
    own: TextSettings,
    page: TextSettings,
    root_size: Pt,
    root_line: Option<PageLineHeight>,
    root_color: Color,
)
    ensures
        ({
            let t = margin_text(own, page, root_size, root_line, root_color);
            &&& own.font_size matches Some(v) ==> t.font_size == v
            &&& own.font_size is None ==> (page.font_size matches Some(v) ==> t.font_size == v)
            &&& own.font_size is None && page.font_size is None ==> t.font_size == root_size
            &&& own.color matches Some(v) ==> t.color == v
            &&& own.color is None ==> (page.color matches Some(v) ==> t.color == v)
            &&& own.color is None && page.color is None ==> t.color == root_color
            &&& own.font_weight is Some ==> t.font_weight == own.font_weight
            &&& own.font_weight is None ==> t.font_weight == page.font_weight
            &&& t.line_height.milli >= 0
            &&& own.line_height matches Some(PageLineHeight::Absolute(v)) ==> v.milli >= 0
                ==> t.line_height == v
            &&& own.line_height is None ==> (page.line_height matches Some(
                PageLineHeight::Absolute(v),
            ) ==> v.milli >= 0 ==> t.line_height == v)
            &&& own.line_height is None && page.line_height is None ==> (root_line matches Some(
                PageLineHeight::Absolute(v),
            ) ==> v.milli >= 0 ==> t.line_height == v)
            &&& own.line_height matches Some(PageLineHeight::Number(n)) ==> t.line_height
                == t.font_size.scaled(n).larger(pt(0))
            &&& t.line_height_is_auto <==> own.line_height is None && page.line_height is None
                && root_line is None
            &&& t.line_height_is_auto && 0 <= t.font_size.milli <= 0x1000_0000_0000_0000 ==> 5
                * t.line_height.milli <= 6 * t.font_size.milli < 5 * t.line_height.milli + 5
        }),
{
}

/// The parts of a margin box stand in their order, each behind the ones before it.
pub proof fn parts_stand_in_order(
    parts: Seq<MarginPart>,
    page_counter: nat,
    total_pages: nat,
    n: int,
    k: int,
)
    requires
        0 <= k < n <= parts.len(),
    ensures
        ({
            let all = parts_text(parts, page_counter, total_pages, n);
            let at = parts_text(parts, page_counter, total_pages, k).len() as int;
            let own = match parts[k] {
                MarginPart::Text(t) => t@,
                MarginPart::NamedString(Some(t)) => t@,
                MarginPart::PageCounter => decimal(page_counter),
                MarginPart::PagesCounter => decimal(total_pages),
                _ => Seq::empty(),
            };
            &&& at + own.len() <= all.len()
            &&& all.subrange(at, at + own.len()) == own
        }),
    decreases n,
{
    let all = parts_text(parts, page_counter, total_pages, n);
    let before = parts_text(parts, page_counter, total_pages, n - 1);
    let at = parts_text(parts, page_counter, total_pages, k).len() as int;
    let own = part_text(parts[k], page_counter, total_pages);
    if k < n - 1 {
        parts_stand_in_order(parts, page_counter, total_pages, n - 1, k);
        assert(all.subrange(at, at + own.len()) =~= before.subrange(at, at + own.len()));
    } else {
        assert(all.subrange(at, at + own.len()) =~= own);
    }
}

/// A box without a width of its own grows until its running elements fit, but not beyond the page.
/// At the sides and in the corners it keeps the width of its margin.
pub proof fn boxes_grow_to_their_elements(
    page: Size,
    m: Margins,
    kind: MarginBoxKind,
    parts: Seq<MarginPart>,
    n: int,
)
    requires
        margins_fit(page, m),
        0 <= n <= parts.len(),
    ensures
        ({
            let own = margin_box(page, m, kind, None);
            let r = grown_box(page, m, kind, own, parts, n);
            &&& own.width.milli <= r.width.milli <= page.width.milli
            &&& r.y == own.y && r.height == own.height
            &&& is_left(kind) || is_right(kind) ==> r == own
            &&& !is_left(kind) && !is_right(kind) ==> forall|k: int|
                0 <= k < n ==> (#[trigger] parts[k] matches MarginPart::Running(Some(e))
                    ==> e.width.milli <= r.width.milli || r.width == page.width)
        }),
    decreases n,
{
    boxes_fill_their_margin(page, m, kind, None);
    if n > 0 {
        boxes_grow_to_their_elements(page, m, kind, parts, n - 1);
        match parts[n - 1] {
            MarginPart::Running(Some(e)) => {
                asked_widths_are_heeded(page, m, kind, e.width);
                boxes_fill_their_margin(page, m, kind, Some(e.width));
            },
            _ => {},
        }
    }
}

/// A running element keeps to the edge of its box that its text would keep to, and to the middle of
/// its height.
pub proof fn running_elements_are_aligned(rect: Rect, align: TextAlign, e: RunningElement)
    requires
        -0x1000_0000_0000_0000 <= rect.x.milli <= 0x1000_0000_0000_0000,
        -0x1000_0000_0000_0000 <= rect.y.milli <= 0x1000_0000_0000_0000,
        0 <= rect.width.milli <= 0x1000_0000_0000_0000,
        0 <= rect.height.milli <= 0x1000_0000_0000_0000,
        0 <= e.width.milli <= 0x1000_0000_0000_0000,
        0 <= e.height.milli <= 0x1000_0000_0000_0000,
    ensures
        running_form(rect, align, e) matches CommandView::DrawForm {
            x,
            y,
            width,
            height,
            resource_id,
        } && {
            &&& width == e.width && height == e.height && resource_id == e.resource_id@
            &&& align == TextAlign::Left || align == TextAlign::Justify ==> x == rect.x
            &&& align == TextAlign::Right ==> x.milli + width.milli == rect.x.milli
                + rect.width.milli
            &&& align == TextAlign::Center ==> -1 <= 2 * x.milli + width.milli - (2 * rect.x.milli
                + rect.width.milli) <= 1
            &&& -1 <= 2 * y.milli + height.milli - (2 * rect.y.milli + rect.height.milli) <= 1
        },
{
}

/// The background of a page covers the page and what is printed around it on all four sides, in a
/// state of its own; one that cannot be seen is not drawn.
pub proof fn backgrounds_cover_the_sheet(page: Size, extent: Pt, color: Color, alpha: Real)
    requires
        0 <= page.width.milli <= 0x1000_0000_0000_0000,
        0 <= page.height.milli <= 0x1000_0000_0000_0000,
        0 <= extent.milli <= 0x1000_0000_0000_0000,
    ensures
        !is_visible(alpha) ==> page_fill(page, extent, color, alpha).len() == 0,
        is_visible(alpha) ==> {
            let cs = page_fill(page, extent, color, alpha);
            let n = cs.len() as int;
            &&& n >= 4
            &&& cs[0] == CommandView::SaveState
            &&& cs[1] == CommandView::SetFillColor(color)
            &&& cs[n - 1] == CommandView::RestoreState
            &&& cs[n - 2] matches CommandView::DrawRect { x, y, width, height } && {
                &&& x.milli == -extent.milli
                &&& y.milli == -extent.milli
                &&& x.milli + width.milli == page.width.milli + extent.milli
                &&& y.milli + height.milli == page.height.milli + extent.milli
            }
            &&& below_one(alpha) ==> cs[2] == (CommandView::SetOpacity {
                fill: alpha,
                stroke: alpha,
            })
        },
{
}

/// The register marks stand outside the page, in the middle of its four sides: three quarters of the
/// extent away from it.
pub proof fn marks_stand_outside_the_page(page: Size, extent: Pt)
    requires
        0 <= page.width.milli <= 0x1000_0000_0000_0000,
        0 <= page.height.milli <= 0x1000_0000_0000_0000,
        2 <= extent.milli <= 0x1000_0000_0000_0000,
    ensures
        ({
            let top = mark_center(page, extent, Side::Top);
            let bottom = mark_center(page, extent, Side::Bottom);
            let left = mark_center(page, extent, Side::Left);
            let right = mark_center(page, extent, Side::Right);
            &&& -extent.milli < top.1.milli < 0
            &&& page.height.milli < bottom.1.milli < page.height.milli + extent.milli
            &&& -extent.milli < left.0.milli < 0
            &&& page.width.milli < right.0.milli < page.width.milli + extent.milli
            &&& top.0 == bottom.0 && is_about(2 * top.0.milli, page.width.milli as int)
            &&& left.1 == right.1 && is_about(2 * left.1.milli, page.height.milli as int)
            &&& -top.1.milli == bottom.1.milli - page.height.milli
            &&& -left.0.milli == right.0.milli - page.width.milli
            &&& -4 < 4 * top.1.milli + 3 * extent.milli < 4
            &&& -4 < 4 * left.0.milli + 3 * extent.milli < 4
        }),
{
}

} // verus!
