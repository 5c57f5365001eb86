//! Fitting HTML pages to their page area.
//!
//! Content that reaches beyond the right edge of its page area shrinks the whole document by one
//! proportion. Paint that a transform moved over the upper or lower edge of a page area is replayed
//! on the neighbouring page.
use vstd::prelude::*;

use crate::command::{emit, model_of_form, models, Command, CommandView};
use crate::geometry::{clamp64, pt, Pt, Ratio, Rect, Size};
use crate::text::{char_rows, chars_of, parse_i64, parsed_int, same, split_chars, split_on, texts};

verus! {

broadcast use vstd::string::group_string_axioms;

/// Marks the template of a page; what stands before it belongs to the template.
pub const META_PAGE_TEMPLATE_KEY: &'static str = "fb.page.template";

/// The page area in thousandths of a point: left, top, width, height.
pub const META_HTML_PAGE_AREA_KEY: &'static str = "fb.html.page_area";

/// The physical size of a page in thousandths of a point: width, height.
pub const META_PAGE_SIZE_KEY: &'static str = "fb.page.size";

/// How far content reaches to the right.
pub const META_HTML_SCROLLABLE_RIGHT_KEY: &'static str = "fb.html.scrollable_right";

/// How far content reaches up.
pub const META_HTML_SCROLLABLE_TOP_KEY: &'static str = "fb.html.scrollable_top";

/// How far content reaches down.
pub const META_HTML_SCROLLABLE_BOTTOM_KEY: &'static str = "fb.html.scrollable_bottom";

/// Opens a scope.
pub const META_DIAGNOSTIC_SCOPE_BEGIN_KEY: &'static str = "fb.scope.begin";

/// Closes a scope.
pub const META_DIAGNOSTIC_SCOPE_END_KEY: &'static str = "fb.scope.end";

/// Says which element owns the scope.
pub const META_OWNER_PATH_KEY: &'static str = "fb.owner.dom_path";

/// Opens and closes the background of the root.
pub const META_HTML_CANVAS_BACKGROUND_KEY: &'static str = "fb.html.canvas_background";

// ---------------------------------------------------------------------------------------------
// Notes in the display list
// ---------------------------------------------------------------------------------------------
/// The value of a note with the given key.
pub open spec fn note(c: CommandView, key: Seq<char>) -> Option<Seq<char>> {
    match c {
        CommandView::Meta { key: k, value } => if k == key {
            Some(value)
        } else {
            None
        },
        _ => None,
    }
}

/// The values of all notes with the given key, those inside forms too, in order.
pub open spec fn notes(cs: Seq<CommandView>, key: Seq<char>) -> Seq<Seq<char>>
    decreases cs,
{
    if cs.len() == 0 {
        Seq::empty()
    } else {
        let before = notes(cs.drop_last(), key);
        match cs.last() {
            CommandView::Meta { key: k, value } => if k == key {
                before.push(value)
            } else {
                before
            },
            CommandView::DefineForm { resource_id, width, height, commands } => before + notes(
                commands,
                key,
            ),
            CommandView::DefineIsolatedForm { resource_id, width, height, commands } => before
                + notes(commands, key),
            _ => before,
        }
    }
}

/// The value of a note with the given key.
pub fn note_of<'a>(c: &'a Command, key: &str) -> (r: Option<&'a String>)
    ensures
        match r {
            Some(v) => note(c.model(), key@) == Some(v@),
            None => note(c.model(), key@) is None,
        },
{
    match c {
        Command::Meta { key: k, value } => if same(k, key) {
            Some(value)
        } else {
            None
        },
        _ => None,
    }
}

/// Adds the values of all notes with the given key to a list.
pub fn collect_notes(list: &Vec<Command>, key: &str, out: &mut Vec<String>)
    ensures
        texts(final(out)@) == texts(old(out)@) + notes(models(list@), key@),
    decreases list,
{
    let ghost start = texts(out@);
    let ghost all = models(list@);
    let mut i: usize = 0;
    proof {
        assert(all.take(0) =~= Seq::empty());
        assert(start + Seq::<Seq<char>>::empty() =~= start);
    }
    while i < list.len()
        invariant
            i <= list@.len(),
            all == models(list@),
            texts(out@) == start + notes(all.take(i as int), key@),
        decreases list@.len() - i,
    {
        let ghost before = notes(all.take(i as int), key@);
        let ghost held = texts(out@);
        proof {
            assert(all.take(i + 1).drop_last() =~= all.take(i as int));
            assert(all.take(i + 1).last() == list@[i as int].model());
            model_of_form(list@[i as int]);
            assert(decreases_to!(list => list@[i as int]));
        }
        match &list[i] {
            Command::Meta { key: k, value } => {
                if same(k, key) {
                    out.push(value.clone());
                    proof {
                        assert(texts(out@) =~= held.push(value@));
                        assert(start + before.push(value@) =~= (start + before).push(value@));
                    }
                }
            },
            Command::DefineForm { resource_id: _, width: _, height: _, commands } => {
                collect_notes(commands, key, out);
                proof {
                    let inner = notes(models(commands@), key@);
                    assert(start + (before + inner) =~= (start + before) + inner);
                }
            },
            Command::DefineIsolatedForm { resource_id: _, width: _, height: _, commands } => {
                collect_notes(commands, key, out);
                proof {
                    let inner = notes(models(commands@), key@);
                    assert(start + (before + inner) =~= (start + before) + inner);
                }
            },
            _ => {},
        }
        i += 1;
    }
    proof {
        assert(all.take(all.len() as int) =~= all);
    }
}

/// The values of all notes with the given key.
pub fn notes_of(list: &Vec<Command>, key: &str) -> (out: Vec<String>)
    ensures
        texts(out@) == notes(models(list@), key@),
{
    let mut out: Vec<String> = Vec::new();
    proof {
        assert(texts(out@) =~= Seq::empty());
        assert(Seq::<Seq<char>>::empty() + notes(models(list@), key@) =~= notes(
            models(list@),
            key@,
        ));
    }
    collect_notes(list, key, &mut out);
    out
}

/// The 64-bit integer that a text writes.
pub open spec fn number(s: Seq<char>) -> Option<int> {
    parsed_int(s, i64::MIN as int, i64::MAX as int)
}

pub(crate) fn number_of(s: &str) -> (r: Option<i64>)
    ensures
        match r {
            Some(n) => number(s@) == Some(n as int),
            None => number(s@) is None,
        },
{
    parse_i64(&chars_of(s))
}

/// The largest number of a list, not below `start`.
pub open spec fn largest_from(values: Seq<Seq<char>>, start: int) -> int
    decreases values.len(),
{
    if values.len() == 0 {
        start
    } else {
        let before = largest_from(values.drop_last(), start);
        match number(values.last()) {
            Some(n) => if n > before {
                n
            } else {
                before
            },
            None => before,
        }
    }
}

/// The largest number of a list.
pub open spec fn largest(values: Seq<Seq<char>>) -> Option<int>
    decreases values.len(),
{
    if values.len() == 0 {
        None
    } else {
        join_largest(largest(values.drop_last()), number(values.last()))
    }
}

/// The larger of two numbers that may be missing.
pub open spec fn join_largest(a: Option<int>, b: Option<int>) -> Option<int> {
    match (a, b) {
        (Some(m), Some(n)) => Some(
            if n > m {
                n
            } else {
                m
            },
        ),
        (None, Some(n)) => Some(n),
        _ => a,
    }
}

/// The smallest number of a list.
pub open spec fn smallest(values: Seq<Seq<char>>) -> Option<int>
    decreases values.len(),
{
    if values.len() == 0 {
        None
    } else {
        match (smallest(values.drop_last()), number(values.last())) {
            (Some(m), Some(n)) => Some(
                if n < m {
                    n
                } else {
                    m
                },
            ),
            (None, Some(n)) => Some(n),
            (m, None) => m,
        }
    }
}

/// A 64-bit number as a mathematical one.
pub open spec fn whole(n: Option<i64>) -> Option<int> {
    match n {
        Some(k) => Some(k as int),
        None => None,
    }
}

pub(crate) fn larger_known(a: Option<i64>, b: Option<i64>) -> (r: Option<i64>)
    ensures
        whole(r) == join_largest(whole(a), whole(b)),
{
    match a {
        Some(m) => match b {
            Some(n) => if n > m {
                Some(n)
            } else {
                Some(m)
            },
            None => Some(m),
        },
        None => b,
    }
}

fn extremes(values: &Vec<String>, start: i64) -> (r: (i64, Option<i64>, Option<i64>))
    ensures
        r.0 == largest_from(texts(values@), start as int),
        whole(r.1) == smallest(texts(values@)),
        whole(r.2) == largest(texts(values@)),
{
    let mut from: i64 = start;
    let mut low: Option<i64> = None;
    let mut high: Option<i64> = None;
    let ghost all = texts(values@);
    let mut i: usize = 0;
    proof {
        assert(all.take(0) =~= Seq::empty());
    }
    while i < values.len()
        invariant
            i <= values@.len(),
            all == texts(values@),
            from == largest_from(all.take(i as int), start as int),
            whole(low) == smallest(all.take(i as int)),
            whole(high) == largest(all.take(i as int)),
        decreases values@.len() - i,
    {
        proof {
            assert(all.take(i + 1).drop_last() =~= all.take(i as int));
            assert(all.take(i + 1).last() == values@[i as int]@);
        }
        let here = number_of(&values[i]);
        match here {
            Some(n) => {
                if n > from {
                    from = n;
                }
                low = match low {
                    Some(m) => if n < m {
                        Some(n)
                    } else {
                        Some(m)
                    },
                    None => Some(n),
                };
            },
            None => {},
        }
        high = larger_known(high, here);
        i += 1;
    }
    proof {
        assert(all.take(all.len() as int) =~= all);
    }
    (from, low, high)
}

// ---------------------------------------------------------------------------------------------
// The page area and size
// ---------------------------------------------------------------------------------------------
/// The numbers among the parts of a text.
pub open spec fn numbers(parts: Seq<Seq<char>>) -> Seq<int>
    decreases parts.len(),
{
    if parts.len() == 0 {
        Seq::empty()
    } else {
        match number(parts.last()) {
            Some(n) => numbers(parts.drop_last()).push(n),
            None => numbers(parts.drop_last()),
        }
    }
}

/// The numbers as lengths.
pub open spec fn as_ints(v: Seq<i64>) -> Seq<int> {
    Seq::new(v.len(), |i: int| v[i] as int)
}

fn numbers_of(s: &str) -> (out: Vec<i64>)
    ensures
        as_ints(out@) == numbers(split_on(s@, ',')),
{
    let parts = split_chars(&chars_of(s), ',');
    let ghost all = char_rows(parts@);
    let mut out: Vec<i64> = Vec::new();
    let mut i: usize = 0;
    proof {
        assert(all.take(0) =~= Seq::empty());
        assert(as_ints(out@) =~= Seq::empty());
    }
    while i < parts.len()
        invariant
            i <= parts@.len(),
            all == char_rows(parts@),
            as_ints(out@) == numbers(all.take(i as int)),
        decreases parts@.len() - i,
    {
        proof {
            assert(all.take(i + 1).drop_last() =~= all.take(i as int));
            assert(all.take(i + 1).last() == parts@[i as int]@);
        }
        let ghost before = as_ints(out@);
        match parse_i64(&parts[i]) {
            Some(n) => {
                out.push(n);
                proof {
                    assert(as_ints(out@) =~= before.push(n as int));
                }
            },
            None => {},
        }
        i += 1;
    }
    proof {
        assert(all.take(all.len() as int) =~= all);
    }
    out
}

/// The page area that a text writes: four numbers, of which the extents are positive. Parts that
/// are no numbers are passed over.
pub open spec fn written_area(s: Seq<char>) -> Option<Rect> {
    let n = numbers(split_on(s, ','));
    if n.len() == 4 && n[2] > 0 && n[3] > 0 {
        Some(Rect { x: pt(n[0]), y: pt(n[1]), width: pt(n[2]), height: pt(n[3]) })
    } else {
        None
    }
}

fn written_area_of(s: &str) -> (r: Option<Rect>)
    ensures
        r == written_area(s@),
{
    let n = numbers_of(s);
    proof {
        assert(as_ints(n@).len() == n@.len());
    }
    if n.len() == 4 && n[2] > 0 && n[3] > 0 {
        proof {
            assert(as_ints(n@)[0] == n@[0] && as_ints(n@)[1] == n@[1] && as_ints(n@)[2] == n@[2]
                && as_ints(n@)[3] == n@[3]);
        }
        Some(
            Rect {
                x: Pt { milli: n[0] },
                y: Pt { milli: n[1] },
                width: Pt { milli: n[2] },
                height: Pt { milli: n[3] },
            },
        )
    } else {
        proof {
            if n@.len() == 4 {
                assert(as_ints(n@)[2] == n@[2] && as_ints(n@)[3] == n@[3]);
            }
        }
        None
    }
}

/// The page area that a command notes.
pub open spec fn noted_area(c: CommandView) -> Option<Rect> {
    match note(c, META_HTML_PAGE_AREA_KEY@) {
        Some(v) => written_area(v),
        None => None,
    }
}

/// The first page area that is noted from command `i` on.
pub open spec fn first_area(cs: Seq<CommandView>, i: int) -> Option<Rect>
    decreases cs.len() - i,
{
    if i >= cs.len() {
        None
    } else {
        match noted_area(cs[i]) {
            Some(r) => Some(r),
            None => first_area(cs, i + 1),
        }
    }
}

fn html_page_area(list: &Vec<Command>) -> (r: Option<Rect>)
    ensures
        r == first_area(models(list@), 0),
{
    let mut i: usize = 0;
    while i < list.len()
        invariant
            i <= list@.len(),
            first_area(models(list@), i as int) == first_area(models(list@), 0),
        decreases list@.len() - i,
    {
        proof {
            assert(models(list@)[i as int] == list@[i as int].model());
        }
        match note_of(&list[i], META_HTML_PAGE_AREA_KEY) {
            Some(v) => {
                let area = written_area_of(v);
                if area.is_some() {
                    return area;
                }
            },
            None => {},
        }
        i += 1;
    }
    None
}

/// The page size that a command notes: two numbers.
pub open spec fn noted_size(c: CommandView) -> Option<Size> {
    match note(c, META_PAGE_SIZE_KEY@) {
        Some(v) => {
            let parts = split_on(v, ',');
            if parts.len() == 2 && number(parts[0]) is Some && number(parts[1]) is Some {
                Some(Size { width: pt(number(parts[0])->0), height: pt(number(parts[1])->0) })
            } else {
                None
            }
        },
        None => None,
    }
}

fn noted_size_of(c: &Command) -> (r: Option<Size>)
    ensures
        r == noted_size(c.model()),
{
    match note_of(c, META_PAGE_SIZE_KEY) {
        Some(v) => {
            let parts = split_chars(&chars_of(v), ',');
            proof {
                assert(char_rows(parts@).len() == parts@.len());
            }
            if parts.len() != 2 {
                return None;
            }
            proof {
                assert(char_rows(parts@)[0] == parts@[0]@ && char_rows(parts@)[1] == parts@[1]@);
            }
            match parse_i64(&parts[0]) {
                Some(w) => match parse_i64(&parts[1]) {
                    Some(h) => Some(Size { width: Pt { milli: w }, height: Pt { milli: h } }),
                    None => None,
                },
                None => None,
            }
        },
        None => None,
    }
}

/// The last page size that the first `n` commands note.
pub open spec fn last_size(cs: Seq<CommandView>, n: int) -> Option<Size>
    decreases n,
{
    if n <= 0 {
        None
    } else {
        match noted_size(cs[n - 1]) {
            Some(s) => Some(s),
            None => last_size(cs, n - 1),
        }
    }
}

fn named_size(list: &Vec<Command>) -> (r: Option<Size>)
    ensures
        r == last_size(models(list@), list@.len() as int),
{
    let mut i: usize = list.len();
    while i > 0
        invariant
            i <= list@.len(),
            last_size(models(list@), i as int) == last_size(models(list@), list@.len() as int),
        decreases i,
    {
        i -= 1;
        proof {
            assert(models(list@)[i as int] == list@[i as int].model());
        }
        let size = noted_size_of(&list[i]);
        if size.is_some() {
            return size;
        }
    }
    None
}

/// Where the content of a page starts: behind the first template note from command `i` on.
pub open spec fn content_from(cs: Seq<CommandView>, i: int) -> int
    decreases cs.len() - i,
{
    if i >= cs.len() {
        0
    } else if note(cs[i], META_PAGE_TEMPLATE_KEY@) is Some {
        i + 1
    } else {
        content_from(cs, i + 1)
    }
}

fn content_start(list: &Vec<Command>) -> (r: usize)
    ensures
        r == content_from(models(list@), 0),
        r <= list@.len(),
{
    let mut i: usize = 0;
    while i < list.len()
        invariant
            i <= list@.len(),
            content_from(models(list@), i as int) == content_from(models(list@), 0),
        decreases list@.len() - i,
    {
        proof {
            assert(models(list@)[i as int] == list@[i as int].model());
        }
        if note_of(&list[i], META_PAGE_TEMPLATE_KEY).is_some() {
            return i + 1;
        }
        i += 1;
    }
    0
}

// ---------------------------------------------------------------------------------------------
// The fit of a page
// ---------------------------------------------------------------------------------------------
/// How a page fits its area.
#[derive(Clone, Copy, PartialEq, Eq, Structural)]
pub struct HtmlPageFit {
    pub page_size: Size,
    pub page_area: Rect,
    pub min_top: Option<i64>,
    pub max_bottom: Option<i64>,
    pub local_scale: Ratio,
    pub content_start: usize,
}

/// The lower edge of the page area.
pub open spec fn area_bottom(f: HtmlPageFit) -> int {
    f.page_area.y.plus(f.page_area.height).milli as int
}

/// Paint reaches above the page area.
pub open spec fn overflows_top(f: HtmlPageFit) -> bool {
    match f.min_top {
        Some(t) => t < f.page_area.y.milli,
        None => false,
    }
}

/// Paint reaches below the page area.
pub open spec fn overflows_bottom(f: HtmlPageFit) -> bool {
    match f.max_bottom {
        Some(b) => b > area_bottom(f),
        None => false,
    }
}

/// The size of a page: the last one noted, else the default.
pub open spec fn size_of_page(cs: Seq<CommandView>, default_size: Size) -> Size {
    match last_size(cs, cs.len() as int) {
        Some(s) => s,
        None => default_size,
    }
}

/// The area of a page: the first one noted, else the whole page.
pub open spec fn area_of_page(cs: Seq<CommandView>, default_size: Size) -> Rect {
    match first_area(cs, 0) {
        Some(r) => r,
        None => Rect {
            x: pt(0),
            y: pt(0),
            width: size_of_page(cs, default_size).width,
            height: size_of_page(cs, default_size).height,
        },
    }
}

/// The proportion in which a page fits its area: the width of the area over the width of the
/// content, where the content is wider.
pub open spec fn local_scale(cs: Seq<CommandView>, default_size: Size) -> Ratio {
    let area = area_of_page(cs, default_size);
    let allowed = area.x.plus(area.width).milli as int;
    let right = largest_from(notes(cs, META_HTML_SCROLLABLE_RIGHT_KEY@), allowed);
    let reach = clamp64(right - area.x.milli);
    if size_of_page(cs, default_size).width.milli > 0 && right > allowed && reach > 0 {
        Ratio { num: area.width.milli, den: reach }
    } else {
        Ratio::one()
    }
}

/// The fit `f` is that of the page `cs`.
pub open spec fn is_fit(cs: Seq<CommandView>, default_size: Size, f: HtmlPageFit) -> bool {
    &&& f.page_size == size_of_page(cs, default_size)
    &&& f.page_area == area_of_page(cs, default_size)
    &&& whole(f.min_top) == smallest(notes(cs, META_HTML_SCROLLABLE_TOP_KEY@))
    &&& whole(f.max_bottom) == largest(notes(cs, META_HTML_SCROLLABLE_BOTTOM_KEY@))
    &&& f.local_scale == local_scale(cs, default_size)
    &&& f.content_start == content_from(cs, 0)
}

pub(crate) proof fn noted_areas_are_wide(cs: Seq<CommandView>, i: int)
    requires
        0 <= i,
    ensures
        match first_area(cs, i) {
            Some(r) => r.width.milli > 0 && r.height.milli > 0,
            None => true,
        },
    decreases cs.len() - i,
{
    if i < cs.len() {
        noted_areas_are_wide(cs, i + 1);
    }
}

pub(crate) fn fit_page(list: &Vec<Command>, default_size: Size) -> (f: HtmlPageFit)
    ensures
        is_fit(models(list@), default_size, f),
        f.local_scale.is_proper(),
        f.content_start <= list@.len(),
{
    let page_size = match named_size(list) {
        Some(s) => s,
        None => default_size,
    };
    let page_area = match html_page_area(list) {
        Some(r) => r,
        None => Rect {
            x: Pt::zero(),
            y: Pt::zero(),
            width: page_size.width,
            height: page_size.height,
        },
    };
    proof {
        noted_areas_are_wide(models(list@), 0);
    }
    let allowed: i64 = page_area.x.plus(page_area.width).milli;
    let rights = notes_of(list, META_HTML_SCROLLABLE_RIGHT_KEY);
    let right: i64 = extremes(&rights, allowed).0;
    let reach: i64 = Pt { milli: right }.minus(page_area.x).milli;
    let local_scale = if page_size.width.milli > 0 && right > allowed && reach > 0 {
        Ratio { num: page_area.width.milli, den: reach }
    } else {
        Ratio::one()
    };
    let tops = notes_of(list, META_HTML_SCROLLABLE_TOP_KEY);
    let bottoms = notes_of(list, META_HTML_SCROLLABLE_BOTTOM_KEY);
    HtmlPageFit {
        page_size,
        page_area,
        min_top: extremes(&tops, 0).1,
        max_bottom: extremes(&bottoms, 0).2,
        local_scale,
        content_start: content_start(list),
    }
}

// ---------------------------------------------------------------------------------------------
// The background of the root
// ---------------------------------------------------------------------------------------------
/// How many root backgrounds are open before command `n`.
pub open spec fn background_depth(cs: Seq<CommandView>, n: int) -> nat
    decreases n,
{
    if n <= 0 {
        0
    } else {
        let before = background_depth(cs, n - 1);
        match note(cs[n - 1], META_HTML_CANVAS_BACKGROUND_KEY@) {
            Some(v) => if v == "begin"@ {
                before + 1
            } else if v == "end"@ && before > 0 {
                (before - 1) as nat
            } else {
                before
            },
            None => before,
        }
    }
}

/// A rectangle made higher; any other command as it is.
pub open spec fn heightened(c: CommandView, by: Pt) -> CommandView {
    match c {
        CommandView::DrawRect { x, y, width, height } => CommandView::DrawRect {
            x,
            y,
            width,
            height: height.plus(by),
        },
        _ => c,
    }
}

/// The commands with the rectangles of the root background made higher.
pub open spec fn extended_background(cs: Seq<CommandView>, by: Pt) -> Seq<CommandView> {
    Seq::new(
        cs.len(),
        |i: int|
            if background_depth(cs, i) > 0 {
                heightened(cs[i], by)
            } else {
                cs[i]
            },
    )
}

pub(crate) fn extend_html_canvas_background_block_end(list: &Vec<Command>, guard: Pt) -> (out: Vec<Command>)
    ensures
        models(out@) == extended_background(models(list@), guard),
{
    let ghost all = models(list@);
    let mut out: Vec<Command> = Vec::new();
    let mut depth: usize = 0;
    let mut i: usize = 0;
    while i < list.len()
        invariant
            i <= list@.len(),
            all == models(list@),
            depth <= i,
            depth == background_depth(all, i as int),
            models(out@) == extended_background(all, guard).take(i as int),
        decreases list@.len() - i,
    {
        let c = &list[i];
        proof {
            assert(all[i as int] == c.model());
            let full = extended_background(all, guard);
            assert(full.take(i + 1) =~= full.take(i as int).push(full[i as int]));
        }
        let next = match c {
            Command::DrawRect { x, y, width, height } => if depth > 0 {
                Command::DrawRect { x: *x, y: *y, width: *width, height: height.plus(guard) }
            } else {
                c.copy()
            },
            _ => c.copy(),
        };
        emit(&mut out, next);
        match note_of(c, META_HTML_CANVAS_BACKGROUND_KEY) {
            Some(v) => {
                if same(v, "begin") {
                    depth = depth + 1;
                } else if same(v, "end") && depth > 0 {
                    depth = depth - 1;
                }
            },
            None => {},
        }
        i += 1;
    }
    proof {
        let full = extended_background(all, guard);
        assert(full.take(full.len() as int) =~= full);
    }
    out
}

// ---------------------------------------------------------------------------------------------
// Replays
// ---------------------------------------------------------------------------------------------
/// What a command paints, without its meaning: notes and tags vanish.
pub open spec fn replayed(c: CommandView) -> Seq<CommandView>
    decreases c, 0int,
{
    match c {
        CommandView::Meta { key, value } => Seq::empty(),
        CommandView::BeginTag { role, mcid, alt, scope, table_id, col_index, group_only } => {
            Seq::empty()
        },
        CommandView::BeginTagActualText { role, actual_text, mcid } => Seq::empty(),
        CommandView::EndTag => Seq::empty(),
        CommandView::DefineForm { resource_id, width, height, commands } => seq![
            CommandView::DefineForm { resource_id, width, height, commands: replay(commands) },
        ],
        CommandView::DefineIsolatedForm { resource_id, width, height, commands } => seq![
            CommandView::DefineIsolatedForm {
                resource_id,
                width,
                height,
                commands: replay(commands),
            },
        ],
        _ => seq![c],
    }
}

/// What a list of commands paints.
pub open spec fn replay(cs: Seq<CommandView>) -> Seq<CommandView>
    decreases cs, 1int,
{
    if cs.len() == 0 {
        Seq::empty()
    } else {
        replay(cs.drop_last()) + replayed(cs.last())
    }
}

/// What a list of commands paints.
pub fn visual_replay_commands(list: &Vec<Command>) -> (out: Vec<Command>)
    ensures
        models(out@) == replay(models(list@)),
    decreases list,
{
    let ghost all = models(list@);
    let mut out: Vec<Command> = Vec::new();
    let mut i: usize = 0;
    proof {
        assert(all.take(0) =~= Seq::empty());
        assert(models(out@) =~= Seq::empty());
    }
    while i < list.len()
        invariant
            i <= list@.len(),
            all == models(list@),
            models(out@) == replay(all.take(i as int)),
        decreases list@.len() - i,
    {
        let c = &list[i];
        let ghost before = replay(all.take(i as int));
        proof {
            assert(all.take(i + 1).drop_last() =~= all.take(i as int));
            assert(all.take(i + 1).last() == c.model());
            model_of_form(*c);
            assert(decreases_to!(list => list@[i as int]));
            assert(before + Seq::<CommandView>::empty() =~= before);
            assert(replay(all.take(i + 1)) == before + replayed(c.model()));
        }
        match c {
            Command::Meta { key: _, value: _ } => {},
            Command::BeginTag {
                role: _,
                mcid: _,
                alt: _,
                scope: _,
                table_id: _,
                col_index: _,
                group_only: _,
            } => {},
            Command::BeginTagActualText { role: _, actual_text: _, mcid: _ } => {},
            Command::EndTag => {},
            Command::DefineForm { resource_id, width, height, commands } => {
                let inner = visual_replay_commands(commands);
                let form = Command::DefineForm {
                    resource_id: resource_id.clone(),
                    width: *width,
                    height: *height,
                    commands: inner,
                };
                proof {
                    model_of_form(form);
                    assert(replayed(c.model()) == seq![form.model()]);
                    assert(before + seq![form.model()] =~= before.push(form.model()));
                }
                emit(&mut out, form);
            },
            Command::DefineIsolatedForm { resource_id, width, height, commands } => {
                let inner = visual_replay_commands(commands);
                let form = Command::DefineIsolatedForm {
                    resource_id: resource_id.clone(),
                    width: *width,
                    height: *height,
                    commands: inner,
                };
                proof {
                    model_of_form(form);
                    assert(replayed(c.model()) == seq![form.model()]);
                    assert(before + seq![form.model()] =~= before.push(form.model()));
                }
                emit(&mut out, form);
            },
            _ => {
                proof {
                    assert(replayed(c.model()) == seq![c.model()]);
                    assert(before + seq![c.model()] =~= before.push(c.model()));
                }
                emit(&mut out, c.copy());
            },
        }
        i += 1;
    }
    proof {
        assert(all.take(all.len() as int) =~= all);
    }
    out
}

/// A command paints, and is neither a note nor a tag; a form holds only such commands.
pub open spec fn is_bare_command(c: CommandView) -> bool
    decreases c, 0int,
{
    match c {
        CommandView::Meta { key, value } => false,
        CommandView::BeginTag { role, mcid, alt, scope, table_id, col_index, group_only } => false,
        CommandView::BeginTagActualText { role, actual_text, mcid } => false,
        CommandView::EndTag => false,
        CommandView::DefineForm { resource_id, width, height, commands } => is_bare(commands),
        CommandView::DefineIsolatedForm { resource_id, width, height, commands } => is_bare(
            commands,
        ),
        _ => true,
    }
}

/// Every command of a list paints, and is neither a note nor a tag.
pub open spec fn is_bare(cs: Seq<CommandView>) -> bool
    decreases cs, 1int,
{
    cs.len() == 0 || (is_bare(cs.drop_last()) && is_bare_command(cs.last()))
}

proof fn bare_push(cs: Seq<CommandView>, c: CommandView)
    requires
        is_bare(cs),
        is_bare_command(c),
    ensures
        is_bare(cs.push(c)),
{
    assert(cs.push(c).drop_last() =~= cs);
}

/// What is replayed on another page holds no note and no tag, not even inside a form.
pub proof fn replay_is_bare(cs: Seq<CommandView>)
    ensures
        is_bare(replay(cs)),
    decreases cs,
{
    if cs.len() > 0 {
        let head = replay(cs.drop_last());
        replay_is_bare(cs.drop_last());
        let c = cs.last();
        assert(decreases_to!(cs => cs[cs.len() - 1]));
        match c {
            CommandView::DefineForm { resource_id, width, height, commands } => {
                replay_is_bare(commands);
            },
            CommandView::DefineIsolatedForm { resource_id, width, height, commands } => {
                replay_is_bare(commands);
            },
            _ => {},
        }
        if replayed(c).len() == 0 {
            assert(head + replayed(c) =~= head);
        } else {
            let one = replayed(c)[0];
            assert(head + replayed(c) =~= head.push(one));
            bare_push(head, one);
        }
    }
}

/// Replaying what was already replayed changes nothing.
pub proof fn bare_lists_replay_as_they_are(cs: Seq<CommandView>)
    requires
        is_bare(cs),
    ensures
        replay(cs) == cs,
    decreases cs,
{
    reveal_with_fuel(is_bare, 2);
    reveal_with_fuel(is_bare_command, 2);
    reveal_with_fuel(replay, 2);
    reveal_with_fuel(replayed, 2);
    if cs.len() > 0 {
        bare_lists_replay_as_they_are(cs.drop_last());
        let c = cs.last();
        assert(decreases_to!(cs => cs[cs.len() - 1]));
        match c {
            CommandView::DefineForm { resource_id, width, height, commands } => {
                bare_lists_replay_as_they_are(commands);
            },
            CommandView::DefineIsolatedForm { resource_id, width, height, commands } => {
                bare_lists_replay_as_they_are(commands);
            },
            _ => {},
        }
        assert(cs.drop_last() + seq![c] =~= cs);
    }
}

} // verus!
