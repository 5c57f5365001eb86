//! What is in force where a page draws, and where a fitted document draws its content.
use vstd::prelude::*;

use crate::command::{CommandView, DocumentView};
use crate::fragments::{
    carried, carry, content_of, content_with_carry, document_scale, document_scale_is_least,
    fits_of, fitted, foot_artifact, foot_of, inserted, is_covered, is_scaled, least_scale,
    outermost, overflow_scopes, owner_start, prepared, scope_scan, shrunk, OpenScope, OverflowScope,
};
use crate::geometry::{nearest, pt, Pt, Ratio, Rect, Size};
use crate::shrink::{
    area_bottom, area_of_page, background_depth, content_from, extended_background, largest_from,
    local_scale, note, noted_areas_are_wide, notes, number, overflows_bottom, replay, size_of_page,
    HtmlPageFit, META_DIAGNOSTIC_SCOPE_BEGIN_KEY, META_DIAGNOSTIC_SCOPE_END_KEY,
    META_HTML_CANVAS_BACKGROUND_KEY, META_HTML_SCROLLABLE_BOTTOM_KEY,
    META_HTML_SCROLLABLE_RIGHT_KEY, META_OWNER_PATH_KEY,
};

verus! {

broadcast use vstd::string::group_string_axioms;

// ---------------------------------------------------------------------------------------------
// The graphics state
// ---------------------------------------------------------------------------------------------
/// The transforms and clips that are in force, the earliest first, and those that were in force at
/// each state that is saved.
#[verifier::ext_equal]
pub struct Graphics {
    pub now: Seq<CommandView>,
    pub saved: Seq<Seq<CommandView>>,
}

/// The command moves, scales or clips all that follows it.
pub open spec fn is_placing(c: CommandView) -> bool {
    c is Translate || c is Scale || c is Rotate || c is ConcatMatrix || c is CssTransformOrigin
        || c is ClipRect
}

/// The state after one more command.
pub open spec fn graphics_step(g: Graphics, c: CommandView) -> Graphics {
    if c is SaveState {
        Graphics { now: g.now, saved: g.saved.push(g.now) }
    } else if c is RestoreState && g.saved.len() > 0 {
        Graphics { now: g.saved.last(), saved: g.saved.drop_last() }
    } else if is_placing(c) {
        Graphics { now: g.now.push(c), saved: g.saved }
    } else {
        g
    }
}

/// The state before command `n`, from the state `g` at the start.
pub open spec fn graphics_from(g: Graphics, cs: Seq<CommandView>, n: int) -> Graphics
    decreases n,
{
    if n <= 0 {
        g
    } else {
        graphics_step(graphics_from(g, cs, n - 1), cs[n - 1])
    }
}

/// Nothing is in force at the start of a page.
pub open spec fn fresh_graphics() -> Graphics {
    Graphics { now: Seq::empty(), saved: Seq::empty() }
}

/// The transforms and clips that are in force at command `n` of a page.
pub open spec fn in_force(cs: Seq<CommandView>, n: int) -> Seq<CommandView> {
    graphics_from(fresh_graphics(), cs, n).now
}

/// How many states are saved at command `n` of a list.
pub open spec fn saved_at(cs: Seq<CommandView>, n: int) -> nat {
    graphics_from(fresh_graphics(), cs, n).saved.len()
}

/// The list restores no state but those that it saved itself.
pub open spec fn keeps_to_itself(cs: Seq<CommandView>) -> bool {
    forall|i: int| 0 <= i < cs.len() && (#[trigger] cs[i]) is RestoreState ==> saved_at(cs, i) > 0
}

/// The state `g` with `h` below it.
spec fn stacked(h: Graphics, g: Graphics) -> Graphics {
    Graphics {
        now: h.now + g.now,
        saved: h.saved + Seq::new(g.saved.len(), |i: int| h.now + g.saved[i]),
    }
}

proof fn graphics_stack(h: Graphics, cs: Seq<CommandView>, n: int)
    requires
        0 <= n <= cs.len(),
        keeps_to_itself(cs),
    ensures
        graphics_from(h, cs, n) == stacked(h, graphics_from(fresh_graphics(), cs, n)),
    decreases n,
{
    if n > 0 {
        graphics_stack(h, cs, n - 1);
        let g = graphics_from(fresh_graphics(), cs, n - 1);
        let s = stacked(h, g);
        let c = cs[n - 1];
        assert(graphics_from(h, cs, n - 1) == s);
        if c is RestoreState {
            assert(saved_at(cs, n - 1) > 0);
            assert(s.saved.last() == h.now + g.saved.last());
        }
        assert(graphics_step(s, c) =~= stacked(h, graphics_step(g, c))) by {
            let a = graphics_step(s, c);
            let b = stacked(h, graphics_step(g, c));
            assert(a.now =~= b.now);
            assert(a.saved =~= b.saved);
        }
    } else {
        assert(stacked(h, fresh_graphics()).now =~= h.now);
        assert(stacked(h, fresh_graphics()).saved =~= h.saved);
    }
}

proof fn graphics_of_parts(g: Graphics, a: Seq<CommandView>, b: Seq<CommandView>, n: int)
    requires
        0 <= n <= b.len(),
    ensures
        graphics_from(g, a + b, a.len() + n) == graphics_from(
            graphics_from(g, a, a.len() as int),
            b,
            n,
        ),
    decreases n,
{
    if n > 0 {
        graphics_of_parts(g, a, b, n - 1);
        assert((a + b)[a.len() + n - 1] == b[n - 1]);
    } else {
        graphics_of_prefix(g, a + b, a, a.len() as int);
    }
}

proof fn graphics_of_prefix(g: Graphics, cs: Seq<CommandView>, a: Seq<CommandView>, n: int)
    requires
        0 <= n <= a.len() <= cs.len(),
        forall|i: int| 0 <= i < a.len() ==> #[trigger] cs[i] == a[i],
    ensures
        graphics_from(g, cs, n) == graphics_from(g, a, n),
    decreases n,
{
    if n > 0 {
        graphics_of_prefix(g, cs, a, n - 1);
        assert(cs[n - 1] == a[n - 1]);
    }
}

/// The two commands are the same, but for the height of a rectangle.
pub open spec fn is_same_but_higher(a: CommandView, b: CommandView) -> bool {
    a == b || match (a, b) {
        (
            CommandView::DrawRect { x, y, width, height },
            CommandView::DrawRect { x: x2, y: y2, width: width2, height: height2 },
        ) => x == x2 && y == y2 && width == width2 && height.milli <= height2.milli,
        _ => false,
    }
}

proof fn graphics_of_like(g: Graphics, a: Seq<CommandView>, b: Seq<CommandView>, n: int)
    requires
        0 <= n <= a.len(),
        a.len() == b.len(),
        forall|i: int| 0 <= i < a.len() ==> is_same_but_higher(#[trigger] a[i], b[i]),
    ensures
        graphics_from(g, a, n) == graphics_from(g, b, n),
    decreases n,
{
    if n > 0 {
        graphics_of_like(g, a, b, n - 1);
        assert(is_same_but_higher(a[n - 1], b[n - 1]));
    }
}

// ---------------------------------------------------------------------------------------------
// Where a transform takes a place
// ---------------------------------------------------------------------------------------------
/// Where transforms take a horizontal place, as numerator and denominator. The innermost is applied
/// first. The lists that this is asked of neither turn nor skew.
pub open spec fn image_x(ts: Seq<CommandView>, x: (int, int)) -> (int, int)
    decreases ts.len(),
{
    if ts.len() == 0 {
        x
    } else {
        let moved = match ts.last() {
            CommandView::Translate(dx, dy) => (x.0 + dx.milli * x.1, x.1),
            CommandView::Scale(sx, sy) => (x.0 * sx.num, x.1 * sx.den),
            CommandView::CssTransformOrigin { x: ox, y: oy, inverse } => if inverse {
                (x.0 - ox.milli * x.1, x.1)
            } else {
                (x.0 + ox.milli * x.1, x.1)
            },
            CommandView::ConcatMatrix { a, b, c, d, e, f } => (
                x.0 * a.num + e.milli * (x.1 * a.den),
                x.1 * a.den,
            ),
            _ => x,
        };
        image_x(ts.drop_last(), moved)
    }
}

/// Where transforms take a vertical place, as numerator and denominator.
pub open spec fn image_y(ts: Seq<CommandView>, y: (int, int)) -> (int, int)
    decreases ts.len(),
{
    if ts.len() == 0 {
        y
    } else {
        let moved = match ts.last() {
            CommandView::Translate(dx, dy) => (y.0 + dy.milli * y.1, y.1),
            CommandView::Scale(sx, sy) => (y.0 * sy.num, y.1 * sy.den),
            CommandView::CssTransformOrigin { x: ox, y: oy, inverse } => if inverse {
                (y.0 - oy.milli * y.1, y.1)
            } else {
                (y.0 + oy.milli * y.1, y.1)
            },
            CommandView::ConcatMatrix { a, b, c, d, e, f } => (
                y.0 * d.num + f.milli * (y.1 * d.den),
                y.1 * d.den,
            ),
            _ => y,
        };
        image_y(ts.drop_last(), moved)
    }
}

/// The transforms bring every place nearer to the left and upper edge of the area, in the given
/// proportion.
pub open spec fn scales_about(ts: Seq<CommandView>, area: Rect, scale: Ratio) -> bool {
    &&& forall|x: int|
        #[trigger] image_x(ts, (x, 1)) == (
            (x - area.x.milli) * scale.num + area.x.milli * scale.den,
            scale.den as int,
        )
    &&& forall|y: int|
        #[trigger] image_y(ts, (y, 1)) == (
            (y - area.y.milli) * scale.num + area.y.milli * scale.den,
            scale.den as int,
        )
}

/// The first command clips to the area, whose upper edge may be cut by a thousandth of a point, and
/// no other one clips.
pub open spec fn clips_to(ts: Seq<CommandView>, area: Rect) -> bool {
    &&& ts.len() > 0
    &&& match ts[0] {
        CommandView::ClipRect { x, y, width, height } => {
            &&& x == area.x
            &&& width == area.width
            &&& area.y.milli <= y.milli <= area.y.milli + 1
            &&& y.milli + height.milli == area.y.milli + area.height.milli
        },
        _ => false,
    }
    &&& forall|i: int| 1 <= i < ts.len() ==> !(#[trigger] ts[i] is ClipRect)
}

proof fn frame_scales(ts: Seq<CommandView>, area: Rect, scale: Ratio, clip: CommandView)
    requires
        clip is ClipRect,
        ts == seq![
            clip,
            CommandView::CssTransformOrigin { x: area.x, y: area.y, inverse: false },
            CommandView::Scale(scale, scale),
            CommandView::CssTransformOrigin { x: area.x, y: area.y, inverse: true },
        ],
    ensures
        scales_about(ts, area, scale),
{
    let t3 = ts.drop_last();
    let t2 = t3.drop_last();
    let t1 = t2.drop_last();
    let t0 = t1.drop_last();
    assert(t0.len() == 0);
    assert forall|x: int|
        #[trigger] image_x(ts, (x, 1)) == (
            (x - area.x.milli) * scale.num + area.x.milli * scale.den,
            scale.den as int,
        ) by {
        let a = area.x.milli as int;
        let end = ((x - a) * scale.num + a * scale.den, scale.den as int);
        assert(image_x(t2, ((x - a) * scale.num, scale.den as int)) == image_x(t1, end));
        assert(t1.last() is ClipRect);
        assert(image_x(t1, end) == image_x(t0, end));
        assert(image_x(t0, end) == end);
        let mid = ((x - a) * scale.num, scale.den as int);
        let near = (x - a, 1int);
        assert(near.1 * scale.den == scale.den) by (nonlinear_arith)
            requires
                near.1 == 1,
        ;
        assert(image_x(t3, near) == image_x(t2, mid));
        assert(a * near.1 == a) by (nonlinear_arith)
            requires
                near.1 == 1,
        ;
        assert(image_x(ts, (x, 1)) == image_x(t3, near));
        assert(image_x(ts, (x, 1)) == end);
    }
    assert forall|y: int|
        #[trigger] image_y(ts, (y, 1)) == (
            (y - area.y.milli) * scale.num + area.y.milli * scale.den,
            scale.den as int,
        ) by {
        let a = area.y.milli as int;
        let end = ((y - a) * scale.num + a * scale.den, scale.den as int);
        assert(image_y(t2, ((y - a) * scale.num, scale.den as int)) == image_y(t1, end));
        assert(t1.last() is ClipRect);
        assert(image_y(t1, end) == image_y(t0, end));
        assert(image_y(t0, end) == end);
        let mid = ((y - a) * scale.num, scale.den as int);
        let near = (y - a, 1int);
        assert(near.1 * scale.den == scale.den) by (nonlinear_arith)
            requires
                near.1 == 1,
        ;
        assert(image_y(t3, near) == image_y(t2, mid));
        assert(a * near.1 == a) by (nonlinear_arith)
            requires
                near.1 == 1,
        ;
        assert(image_y(ts, (y, 1)) == image_y(t3, near));
        assert(image_y(ts, (y, 1)) == end);
    }
}

// ---------------------------------------------------------------------------------------------
// A scaled document
// ---------------------------------------------------------------------------------------------
/// The edges of the area can be counted.
pub open spec fn area_is_countable(area: Rect) -> bool {
    &&& -0x2000_0000_0000_0000 <= area.x.milli <= 0x2000_0000_0000_0000
    &&& -0x2000_0000_0000_0000 <= area.y.milli <= 0x2000_0000_0000_0000
    &&& 0 <= area.width.milli <= 0x2000_0000_0000_0000
    &&& 0 <= area.height.milli <= 0x2000_0000_0000_0000
}

/// The command at `i` of the old page is drawn at `k` of the new one under what was in force for it
/// before, with `added` put in behind the `depth` outermost transforms and clips.
pub open spec fn is_drawn_under(
    old_page: Seq<CommandView>,
    i: int,
    new_page: Seq<CommandView>,
    k: int,
    depth: int,
    added: Seq<CommandView>,
) -> bool {
    let own = in_force(old_page, i);
    &&& is_same_but_higher(old_page[i], new_page[k])
    &&& 0 <= depth <= own.len()
    &&& in_force(new_page, k) == own.take(depth) + added + own.skip(depth)
}

/// The commands from `start` on stand in the new page from `at` on, each of them scaled about the
/// corner of the area and clipped to it.
pub open spec fn is_content_scaled(
    old_page: Seq<CommandView>,
    start: int,
    new_page: Seq<CommandView>,
    at: int,
    area: Rect,
    scale: Ratio,
    added: Seq<CommandView>,
) -> bool {
    let depth = in_force(old_page, start).len() as int;
    &&& 0 <= start <= at
    &&& at + old_page.len() - start <= new_page.len()
    &&& scales_about(added, area, scale)
    &&& clips_to(added, area)
    &&& forall|j: int|
        0 <= j < old_page.len() - start ==> #[trigger] is_drawn_under(
            old_page,
            start + j,
            new_page,
            at + j,
            depth,
            added,
        )
}

/// The page is drawn to scale: its content is scaled and clipped, what comes before is as it was,
/// and what comes behind stands under no more than the content did before. The content leaves no
/// state saved.
pub open spec fn is_page_scaled(
    old_page: Seq<CommandView>,
    start: int,
    new_page: Seq<CommandView>,
    area: Rect,
    scale: Ratio,
    foot: Seq<CommandView>,
) -> bool {
    let n = old_page.len() - start;
    &&& exists|at: int, added: Seq<CommandView>|
        {
            &&& #[trigger] is_content_scaled(old_page, start, new_page, at, area, scale, added)
            &&& saved_at(old_page.skip(start), n) == 0 ==> at + n < new_page.len() && in_force(
                new_page,
                at + n + 1,
            ) == in_force(old_page, start) && new_page.skip(at + n + 1) == foot
        }
    &&& forall|i: int|
        0 <= i < start ==> is_same_but_higher(old_page[i], #[trigger] new_page[i]) && in_force(
            new_page,
            i,
        ) == in_force(old_page, i)
}

proof fn content_start_in_range(cs: Seq<CommandView>, i: int)
    requires
        0 <= i,
    ensures
        0 <= content_from(cs, i) <= cs.len(),
    decreases cs.len() - i,
{
    if i < cs.len() {
        content_start_in_range(cs, i + 1);
    }
}

proof fn like_keeps_to_itself(a: Seq<CommandView>, b: Seq<CommandView>)
    requires
        a.len() == b.len(),
        forall|i: int| 0 <= i < a.len() ==> is_same_but_higher(#[trigger] a[i], b[i]),
        keeps_to_itself(a),
    ensures
        keeps_to_itself(b),
{
    assert forall|i: int| 0 <= i < b.len() && (#[trigger] b[i]) is RestoreState implies saved_at(
        b,
        i,
    ) > 0 by {
        assert(is_same_but_higher(a[i], b[i]));
        graphics_of_like(fresh_graphics(), a, b, i);
    }
}

proof fn fitted_graphics(h: Graphics, content: Seq<CommandView>, area: Rect, scale: Ratio, j: int)
    requires
        keeps_to_itself(content),
        0 <= j <= content.len(),
        area_is_countable(area),
    ensures
        ({
            let cs = fitted(content, area, scale);
            let added = in_force(cs, 5);
            let g = graphics_from(h, cs, 5 + j);
            &&& cs.len() == content.len() + 6
            &&& scales_about(added, area, scale)
            &&& clips_to(added, area)
            &&& j < content.len() ==> cs[5 + j] == content[j]
            &&& g.now == h.now + added + in_force(content, j)
            &&& g.saved.len() == h.saved.len() + 1 + saved_at(content, j)
            &&& g.saved[h.saved.len() as int] == h.now
            &&& g.saved.take(h.saved.len() as int) == h.saved
        }),
{
    let cs = fitted(content, area, scale);
    let open = cs.take(5);
    let close = seq![CommandView::RestoreState];
    assert(cs =~= open + content + close);
    let f = fresh_graphics();
    reveal_with_fuel(graphics_from, 6);
    let added = in_force(open, 5);
    graphics_of_prefix(f, cs, open, 5);
    let clip = open[1];
    assert(added =~= seq![
        clip,
        CommandView::CssTransformOrigin { x: area.x, y: area.y, inverse: false },
        CommandView::Scale(scale, scale),
        CommandView::CssTransformOrigin { x: area.x, y: area.y, inverse: true },
    ]);
    frame_scales(added, area, scale, clip);
    graphics_of_prefix(h, cs, open + content, 5 + j);
    graphics_of_parts(h, open, content, j);
    let g5 = graphics_from(h, open, 5);
    assert(g5.now =~= h.now + added);
    assert(g5.saved =~= h.saved.push(h.now));
    graphics_stack(g5, content, j);
    let g = graphics_from(h, cs, 5 + j);
    assert(g.saved.take(h.saved.len() as int) =~= h.saved);
}

proof fn head_is_kept(
    old_page: Seq<CommandView>,
    ready: Seq<CommandView>,
    start: int,
    new_page: Seq<CommandView>,
    i: int,
)
    requires
        0 <= i <= start <= old_page.len(),
        ready.len() == old_page.len(),
        forall|i: int|
            0 <= i < old_page.len() ==> is_same_but_higher(#[trigger] old_page[i], ready[i]),
        start <= new_page.len(),
        forall|i: int| 0 <= i < start ==> new_page[i] == #[trigger] ready[i],
    ensures
        graphics_from(fresh_graphics(), new_page, i) == graphics_from(
            fresh_graphics(),
            old_page,
            i,
        ),
        graphics_from(fresh_graphics(), ready.take(start), i) == graphics_from(
            fresh_graphics(),
            old_page,
            i,
        ),
        i < start ==> is_same_but_higher(old_page[i], new_page[i]),
{
    let f = fresh_graphics();
    let head = ready.take(start);
    let old_head = old_page.take(start);
    assert forall|i: int| 0 <= i < start implies is_same_but_higher(
        #[trigger] old_head[i],
        head[i],
    ) by {
        assert(is_same_but_higher(old_page[i], ready[i]));
    }
    assert forall|i: int| 0 <= i < start implies #[trigger] new_page[i] == head[i] by {
        assert(new_page[i] == ready[i]);
    }
    graphics_of_prefix(f, old_page, old_head, i);
    graphics_of_prefix(f, new_page, head, i);
    graphics_of_like(f, old_head, head, i);
    if i < start {
        assert(is_same_but_higher(old_page[i], ready[i]));
        assert(new_page[i] == ready[i]);
    }
}

proof fn command_is_fitted(
    old_page: Seq<CommandView>,
    ready: Seq<CommandView>,
    start: int,
    area: Rect,
    scale: Ratio,
    foot: Seq<CommandView>,
    j: int,
)
    requires
        0 <= start <= old_page.len(),
        0 <= j <= old_page.len() - start,
        ready.len() == old_page.len(),
        forall|i: int|
            0 <= i < old_page.len() ==> is_same_but_higher(#[trigger] old_page[i], ready[i]),
        keeps_to_itself(old_page.skip(start)),
        area_is_countable(area),
    ensures
        ({
            let body = fitted(ready.skip(start), area, scale);
            let new_page = ready.take(start) + body + foot;
            let added = in_force(body, 5);
            let n = old_page.len() - start;
            let h = graphics_from(fresh_graphics(), old_page, start);
            let g = graphics_from(fresh_graphics(), new_page, start + 5 + j);
            &&& body.len() == n + 6
            &&& scales_about(added, area, scale)
            &&& clips_to(added, area)
            &&& j < n ==> is_drawn_under(
                old_page,
                start + j,
                new_page,
                start + 5 + j,
                h.now.len() as int,
                added,
            )
            &&& g.saved.len() == h.saved.len() + 1 + saved_at(old_page.skip(start), j)
            &&& g.saved[h.saved.len() as int] == h.now
        }),
{
    let f = fresh_graphics();
    let content = ready.skip(start);
    let old_content = old_page.skip(start);
    let head = ready.take(start);
    let old_head = old_page.take(start);
    let body = fitted(content, area, scale);
    let new_page = head + body + foot;
    let added = in_force(body, 5);
    assert forall|i: int| 0 <= i < content.len() implies is_same_but_higher(
        #[trigger] old_content[i],
        content[i],
    ) by {
        assert(is_same_but_higher(old_page[start + i], ready[start + i]));
    }
    like_keeps_to_itself(old_content, content);
    head_is_kept(old_page, ready, start, new_page, start);
    let h = graphics_from(f, old_page, start);
    fitted_graphics(h, content, area, scale, j);
    graphics_of_prefix(f, new_page, head + body, start + 5 + j);
    graphics_of_parts(f, head, body, 5 + j);
    graphics_of_like(f, old_content, content, j);
    if j < old_page.len() - start {
        assert(old_page =~= old_head + old_content);
        graphics_of_parts(f, old_head, old_content, j);
        graphics_of_prefix(f, old_page, old_head, start);
        graphics_stack(h, old_content, j);
        let own = in_force(old_page, start + j);
        let depth = h.now.len() as int;
        assert(own == h.now + in_force(content, j));
        assert(own.take(depth) =~= h.now);
        assert(own.skip(depth) =~= in_force(content, j));
        assert(new_page[start + 5 + j] == body[5 + j]);
        assert(is_same_but_higher(old_content[j], content[j]));
    }
}

proof fn page_is_fitted(
    old_page: Seq<CommandView>,
    ready: Seq<CommandView>,
    start: int,
    area: Rect,
    scale: Ratio,
    foot: Seq<CommandView>,
)
    requires
        0 <= start <= old_page.len(),
        ready.len() == old_page.len(),
        forall|i: int|
            0 <= i < old_page.len() ==> is_same_but_higher(#[trigger] old_page[i], ready[i]),
        keeps_to_itself(old_page.skip(start)),
        area_is_countable(area),
    ensures
        is_page_scaled(
            old_page,
            start,
            ready.take(start) + fitted(ready.skip(start), area, scale) + foot,
            area,
            scale,
            foot,
        ),
{
    let n = old_page.len() - start;
    let body = fitted(ready.skip(start), area, scale);
    let new_page = ready.take(start) + body + foot;
    let at = start + 5;
    let added = in_force(body, 5);
    let depth = in_force(old_page, start).len() as int;
    command_is_fitted(old_page, ready, start, area, scale, foot, n);
    assert forall|j: int| 0 <= j < n implies #[trigger] is_drawn_under(
        old_page,
        start + j,
        new_page,
        at + j,
        depth,
        added,
    ) by {
        command_is_fitted(old_page, ready, start, area, scale, foot, j);
    }
    assert(is_content_scaled(old_page, start, new_page, at, area, scale, added));
    if saved_at(old_page.skip(start), n) == 0 {
        let g = graphics_from(fresh_graphics(), new_page, at + n);
        assert(new_page[at + n] == body[5 + n]);
        assert(new_page[at + n] is RestoreState);
        assert(g.saved.last() == in_force(old_page, start));
        assert(graphics_from(fresh_graphics(), new_page, at + n + 1) == graphics_step(
            g,
            new_page[at + n],
        ));
        assert(new_page.skip(at + n + 1) =~= foot);
    }
    assert(saved_at(old_page.skip(start), n) == 0 ==> at + n < new_page.len() && in_force(
        new_page,
        at + n + 1,
    ) == in_force(old_page, start) && new_page.skip(at + n + 1) == foot);
    assert forall|i: int| 0 <= i < start implies is_same_but_higher(
        old_page[i],
        #[trigger] new_page[i],
    ) && in_force(new_page, i) == in_force(old_page, i) by {
        head_is_kept(old_page, ready, start, new_page, i);
    }
}

/// In a document that is scaled, every command of a page's content is drawn under the proportion of
/// the document, taken about the corner of the page area, and under a clip to that area; nothing
/// else that was in force for it changes. What the template of the page draws is neither scaled nor
/// clipped, and neither is what the page shows of the next one behind its content.
///
/// The content restores no state that the template saved, and nothing of the page before goes on
/// here.
pub proof fn content_is_drawn_to_scale(d: DocumentView, p: int)
    requires
        0 <= p < d.pages.len(),
        d.pages[p].len() <= usize::MAX,
        is_scaled(fits_of(d)),
        p > 0 ==> !overflows_bottom(fits_of(d)[p - 1]),
        keeps_to_itself(d.pages[p].skip(content_from(d.pages[p], 0))),
        area_is_countable(area_of_page(d.pages[p], d.page_size)),
    ensures
        is_page_scaled(
            d.pages[p],
            content_from(d.pages[p], 0),
            shrunk(d).pages[p],
            area_of_page(d.pages[p], d.page_size),
            document_scale(fits_of(d)),
            foot_of(d, fits_of(d), p),
        ),
{
    let fits = fits_of(d);
    let old_page = d.pages[p];
    let ready = prepared(d, fits, p);
    let start = content_from(old_page, 0);
    let area = area_of_page(old_page, d.page_size);
    let scale = document_scale(fits);
    let foot = foot_of(d, fits, p);
    content_start_in_range(old_page, 0);
    assert(fits[p].content_start == start);
    assert forall|i: int| 0 <= i < old_page.len() implies is_same_but_higher(
        #[trigger] old_page[i],
        ready[i],
    ) by {}
    assert(content_with_carry(d, fits, p) == ready.skip(start));
    assert(shrunk(d).pages[p] == ready.take(start) + fitted(ready.skip(start), area, scale) + foot);
    page_is_fitted(old_page, ready, start, area, scale, foot);
}

/// Page `p` with what goes on there from the page before, and not scaled.
pub open spec fn page_with_carry(d: DocumentView, p: int) -> Seq<CommandView> {
    let fits = fits_of(d);
    prepared(d, fits, p).take(content_from(d.pages[p], 0)) + content_with_carry(d, fits, p)
}

/// What goes on from the page before is scaled and clipped with the content that it stands in.
pub proof fn carried_content_is_drawn_to_scale(d: DocumentView, p: int)
    requires
        0 <= p < d.pages.len(),
        d.pages[p].len() <= usize::MAX,
        is_scaled(fits_of(d)),
        keeps_to_itself(content_with_carry(d, fits_of(d), p)),
        area_is_countable(area_of_page(d.pages[p], d.page_size)),
    ensures
        is_page_scaled(
            page_with_carry(d, p),
            content_from(d.pages[p], 0),
            shrunk(d).pages[p],
            area_of_page(d.pages[p], d.page_size),
            document_scale(fits_of(d)),
            foot_of(d, fits_of(d), p),
        ),
{
    let fits = fits_of(d);
    let ready = page_with_carry(d, p);
    let start = content_from(d.pages[p], 0);
    let area = area_of_page(d.pages[p], d.page_size);
    let scale = document_scale(fits);
    let foot = foot_of(d, fits, p);
    content_start_in_range(d.pages[p], 0);
    assert(fits[p].content_start == start);
    assert(ready.take(start) =~= prepared(d, fits, p).take(start));
    assert(ready.skip(start) =~= content_with_carry(d, fits, p));
    assert(shrunk(d).pages[p] == ready.take(start) + fitted(ready.skip(start), area, scale) + foot);
    page_is_fitted(ready, ready, start, area, scale, foot);
}

/// A document that is not scaled keeps every page that nothing goes on to: what it shows of the next
/// page is put behind.
pub proof fn unscaled_pages_are_kept(d: DocumentView, p: int)
    requires
        0 <= p < d.pages.len(),
        d.pages[p].len() <= usize::MAX,
        !is_scaled(fits_of(d)),
        p > 0 ==> !overflows_bottom(fits_of(d)[p - 1]),
    ensures
        d.pages[p].is_prefix_of(shrunk(d).pages[p]),
        shrunk(d).pages[p] == d.pages[p] || shrunk(d).pages[p] == d.pages[p] + foot_of(
            d,
            fits_of(d),
            p,
        ),
{
    let fits = fits_of(d);
    let start = content_from(d.pages[p], 0);
    content_start_in_range(d.pages[p], 0);
    assert(fits[p].content_start == start);
    assert(d.pages[p].take(start) + d.pages[p].skip(start) =~= d.pages[p]);
    assert(d.pages[p].is_prefix_of(d.pages[p] + foot_of(d, fits, p)));
    assert(d.pages[p].is_prefix_of(d.pages[p]));
}

// ---------------------------------------------------------------------------------------------
// Paint that goes on to the next page
// ---------------------------------------------------------------------------------------------
/// The list `b` holds all commands of `a` in their order.
pub open spec fn holds_in_order(a: Seq<CommandView>, b: Seq<CommandView>) -> bool {
    exists|places: Seq<int>| #[trigger] are_places_in(a, b, places)
}

/// Command `i` of `a` stands in `b` at place `i` of the list, and the places rise.
pub open spec fn are_places_in(a: Seq<CommandView>, b: Seq<CommandView>, places: Seq<int>) -> bool {
    &&& places.len() == a.len()
    &&& forall|i: int|
        0 <= i < a.len() ==> 0 <= #[trigger] places[i] < b.len() && b[places[i]] == a[i]
    &&& forall|i: int, j: int|
        0 <= i < j < a.len() ==> (#[trigger] places[i]) < (#[trigger] places[j])
}

proof fn insertion_holds(
    a: Seq<CommandView>,
    b: Seq<CommandView>,
    at: int,
    more: Seq<CommandView>,
)
    requires
        holds_in_order(a, b),
        0 <= at <= b.len(),
    ensures
        holds_in_order(a, inserted(b, at, more)),
{
    let places = choose|places: Seq<int>| #[trigger] are_places_in(a, b, places);
    let now = Seq::new(
        places.len(),
        |i: int|
            if places[i] < at {
                places[i]
            } else {
                places[i] + more.len()
            },
    );
    let c = inserted(b, at, more);
    assert forall|i: int| 0 <= i < a.len() implies 0 <= #[trigger] now[i] < c.len() && c[now[i]]
        == a[i] by {
        assert(0 <= places[i] < b.len() && b[places[i]] == a[i]);
    }
    assert forall|i: int, j: int| 0 <= i < j < a.len() implies (#[trigger] now[i]) < (
    #[trigger] now[j]) by {
        assert(places[i] < places[j]);
    }
    assert(are_places_in(a, c, now));
}

proof fn owner_starts_inside(cs: Seq<CommandView>, i: int, starts: Seq<int>, owner: Seq<char>)
    requires
        0 <= i,
        forall|k: int| 0 <= k < starts.len() ==> 0 <= #[trigger] starts[k] < cs.len(),
    ensures
        owner_start(cs, i, starts, owner) matches Some(at) ==> 0 <= at < cs.len(),
    decreases cs.len() - i,
{
    if i < cs.len() {
        owner_starts_inside(cs, i + 1, starts.push(i), owner);
        owner_starts_inside(cs, i + 1, starts, owner);
        if starts.len() > 0 {
            owner_starts_inside(cs, i + 1, starts.drop_last(), owner);
            assert(0 <= starts[starts.len() - 1] < cs.len());
        }
    }
}

proof fn carried_holds(
    content: Seq<CommandView>,
    source: Seq<CommandView>,
    scopes: Seq<OverflowScope>,
    n: int,
    source_area: Rect,
    area: Rect,
)
    requires
        0 <= n <= scopes.len(),
    ensures
        holds_in_order(content, carried(content, source, scopes, n, source_area, area)),
    decreases n,
{
    if n > 0 {
        carried_holds(content, source, scopes, n - 1, source_area, area);
        let before = carried(content, source, scopes, n - 1, source_area, area);
        let scope = scopes[n - 1];
        let paint = replay(source.subrange(scope.start, scope.end + 1));
        owner_starts_inside(before, 0, Seq::empty(), scope.owner);
        match owner_start(before, 0, Seq::empty(), scope.owner) {
            Some(at) => {
                if paint.len() > 0 {
                    insertion_holds(content, before, at, carry(paint, source_area, area));
                }
            },
            None => {},
        }
    } else {
        let places = Seq::new(content.len(), |i: int| i);
        assert(are_places_in(content, content, places));
    }
}

/// Whatever goes on there from the page before, a page keeps all commands of its own content in
/// their order.
pub proof fn own_content_is_kept(d: DocumentView, p: int)
    requires
        0 <= p < d.pages.len(),
    ensures
        holds_in_order(
            content_of(d, fits_of(d), p),
            content_with_carry(d, fits_of(d), p),
        ),
{
    let fits = fits_of(d);
    let own = content_of(d, fits, p);
    if p > 0 && overflows_bottom(fits[p - 1]) {
        let source = content_of(d, fits, p - 1);
        let scopes = overflow_scopes(source, area_bottom(fits[p - 1]));
        carried_holds(
            own,
            source,
            scopes,
            scopes.len() as int,
            fits[p - 1].page_area,
            fits[p].page_area,
        );
    } else {
        carried_holds(own, own, Seq::empty(), 0, fits[p].page_area, fits[p].page_area);
    }
}

/// The list draws the paint from command `at` on, under `moved` and as an artifact.
pub open spec fn draws_under(
    cs: Seq<CommandView>,
    at: int,
    paint: Seq<CommandView>,
    moved: Seq<CommandView>,
) -> bool {
    &&& 2 <= at && at + paint.len() < cs.len()
    &&& forall|i: int|
        0 <= i < paint.len() ==> #[trigger] cs[at + i] == paint[i] && in_force(cs, at + i) == moved
            + in_force(paint, i)
    &&& cs[at - 2] == (CommandView::BeginArtifact { subtype: None })
    &&& cs[at + paint.len()] == CommandView::EndMarkedContent
}

/// Paint that goes on to the next page is moved as a whole, so that the lower left corner of the
/// area that it left comes to lie on the upper left corner of the area that it goes on in. It is
/// clipped to that area, it has no meaning of its own, and what follows it stands under what stood
/// before it.
pub proof fn carried_paint_goes_on_at_the_top(
    paint: Seq<CommandView>,
    source: Rect,
    destination: Rect,
)
    requires
        keeps_to_itself(paint),
        saved_at(paint, paint.len() as int) == 0,
        area_is_countable(source),
        area_is_countable(destination),
    ensures
        exists|at: int, moved: Seq<CommandView>|
            {
                &&& #[trigger] draws_under(carry(paint, source, destination), at, paint, moved)
                &&& clips_to(moved, destination)
                &&& image_x(moved, (source.x.milli as int, 1)) == (
                    destination.x.milli as int,
                    1int,
                )
                &&& image_y(moved, (source.y.milli + source.height.milli, 1)) == (
                    destination.y.milli as int,
                    1int,
                )
            },
        in_force(
            carry(paint, source, destination),
            carry(paint, source, destination).len() as int,
        ) == Seq::<CommandView>::empty(),
        saved_at(
            carry(paint, source, destination),
            carry(paint, source, destination).len() as int,
        ) == 0,
        keeps_to_itself(carry(paint, source, destination)),
{
    let cs = carry(paint, source, destination);
    let open = cs.take(4);
    let close = seq![CommandView::EndMarkedContent, CommandView::RestoreState];
    let n = paint.len() as int;
    let f = fresh_graphics();
    assert(cs =~= open + paint + close);
    reveal_with_fuel(graphics_from, 5);
    let moved = in_force(open, 4);
    let g4 = graphics_from(f, open, 4);
    let clip = open[1];
    let shift = open[3];
    assert(moved =~= seq![clip, shift]);
    assert(g4.saved =~= seq![Seq::<CommandView>::empty()]);
    assert forall|j: int| 0 <= j <= n implies #[trigger] graphics_from(f, cs, 4 + j) == stacked(
        g4,
        graphics_from(f, paint, j),
    ) by {
        graphics_of_prefix(f, cs, open + paint, 4 + j);
        graphics_of_parts(f, open, paint, j);
        graphics_stack(g4, paint, j);
    }
    assert forall|i: int| 0 <= i < n implies #[trigger] cs[4 + i] == paint[i] && in_force(cs, 4 + i)
        == moved + in_force(paint, i) by {
        assert(graphics_from(f, cs, 4 + i) == stacked(g4, graphics_from(f, paint, i)));
    }
    carry_lands(moved, clip, shift, source, destination);
    assert(cs[2] == open[2]);
    assert(cs[4 + n] == close[0]);
    assert(cs[5 + n] == close[1]);
    let g = graphics_from(f, cs, 4 + n);
    assert(g.saved =~= seq![Seq::<CommandView>::empty()]);
    assert(graphics_from(f, cs, 5 + n) == g);
    assert(graphics_from(f, cs, 6 + n) == graphics_step(g, cs[5 + n]));
    assert(graphics_from(f, cs, 6 + n).saved =~= Seq::empty());
    assert forall|k: int| 0 <= k < cs.len() && (#[trigger] cs[k]) is RestoreState implies saved_at(
        cs,
        k,
    ) > 0 by {
        if 4 <= k < 4 + n {
            assert(cs[k] == paint[k - 4]);
            assert(graphics_from(f, cs, 4 + (k - 4)) == stacked(
                g4,
                graphics_from(f, paint, k - 4),
            ));
        } else if k < 4 {
            assert(cs[k] == open[k]);
        } else {
            assert(k == 5 + n);
        }
    }
    assert(draws_under(cs, 4, paint, moved));
}

proof fn carry_lands(
    moved: Seq<CommandView>,
    clip: CommandView,
    shift: CommandView,
    source: Rect,
    destination: Rect,
)
    requires
        area_is_countable(source),
        area_is_countable(destination),
        moved == seq![clip, shift],
        clip == (CommandView::ClipRect {
            x: destination.x,
            y: destination.y,
            width: destination.width,
            height: destination.height,
        }),
        shift == (CommandView::ConcatMatrix {
            a: Ratio::one(),
            b: Ratio::zero(),
            c: Ratio::zero(),
            d: Ratio::one(),
            e: destination.x.minus(source.x),
            f: destination.y.minus(source.y).minus(source.height),
        }),
    ensures
        clips_to(moved, destination),
        image_x(moved, (source.x.milli as int, 1)) == (destination.x.milli as int, 1int),
        image_y(moved, (source.y.milli + source.height.milli, 1)) == (
            destination.y.milli as int,
            1int,
        ),
{
    reveal_with_fuel(image_x, 3);
    reveal_with_fuel(image_y, 3);
    assert(moved.drop_last() =~= seq![clip]);
    assert(moved.drop_last().drop_last() =~= Seq::empty());
    let one = (source.x.milli as int, 1int);
    let two = (source.y.milli + source.height.milli, 1int);
    let e = destination.x.minus(source.x).milli as int;
    let f = destination.y.minus(source.y).minus(source.height).milli as int;
    let k = Ratio::one().num as int;
    assert(one.1 * k == 1 && two.1 * k == 1 && e * (one.1 * k) == e && f * (two.1 * k) == f && one.0
        * k == one.0 && two.0 * k == two.0) by (nonlinear_arith)
        requires
            one.1 == 1,
            two.1 == 1,
            k == 1,
    ;
}

/// A scaled length is off by half a thousandth of a point at most.
pub proof fn scaled_lengths_are_near(p: Pt, by: Ratio)
    requires
        0 <= by.num <= by.den,
        by.den > 0,
    ensures
        -by.den <= 2 * (p.milli * by.num - p.scaled(by).milli * by.den) <= by.den,
        p.milli >= 0 ==> 0 <= p.scaled(by).milli <= p.milli,
        p.milli <= 0 ==> p.milli <= p.scaled(by).milli <= 0,
{
    let a = p.milli * by.num;
    let b = by.den as int;
    let q = nearest(a, b);
    let m = if a >= 0 {
        2 * a + b
    } else {
        -2 * a + b
    };
    let r = m / (2 * b);
    assert(m - 2 * b < 2 * b * r <= m) by (nonlinear_arith)
        requires
            r == m / (2 * b),
            b > 0,
    ;
    let size = if p.milli >= 0 {
        p.milli as int
    } else {
        -p.milli
    };
    let num = by.num as int;
    let milli = p.milli as int;
    assert(0 <= size * num <= size * b) by (nonlinear_arith)
        requires
            0 <= size,
            0 <= num <= b,
    ;
    assert(milli >= 0 ==> a == size * num);
    assert(milli < 0 ==> a == -(size * num)) by (nonlinear_arith)
        requires
            a == milli * num,
            milli < 0 ==> size == -milli,
    ;
    assert(0 <= r <= size) by (nonlinear_arith)
        requires
            0 <= m <= 2 * (size * b) + b,
            m - 2 * b < 2 * b * r <= m,
            b > 0,
            size >= 0,
    ;
    assert(a == 0 ==> r <= 0) by (nonlinear_arith)
        requires
            a == 0 ==> 2 * b * r <= b,
            b > 0,
    ;
    assert(q * b == if a >= 0 {
        r * b
    } else {
        -(r * b)
    }) by (nonlinear_arith)
        requires
            q == if a >= 0 {
                r
            } else {
                -r
            },
    ;
    assert(2 * b * r == 2 * (r * b)) by (nonlinear_arith);
}

/// The transforms take the upper left corner of the source's area to a quarter point below the lower
/// left corner of the destination's, to a thousandth of a point, and clip to that area. Heights are
/// counted from the lower edge of the page.
pub open spec fn continues_below(
    moved: Seq<CommandView>,
    source: HtmlPageFit,
    destination: HtmlPageFit,
    scale: Ratio,
) -> bool {
    let from = source.page_area;
    let to = destination.page_area;
    let height = source.page_size.height.milli;
    let x = image_x(moved, (from.x.milli as int, 1));
    let y = image_y(moved, (from.y.milli - height, 1));
    &&& clips_to(moved, to)
    &&& x.1 == scale.den
    &&& -x.1 <= 2 * (x.0 - to.x.milli * x.1) <= x.1
    &&& y.1 == scale.den
    &&& -y.1 <= y.0 + height * y.1 - (to.y.milli + to.height.milli + 250) * y.1 <= y.1
}

/// What reaches over the upper edge of a page is shown at the foot of the page before, in the
/// proportion of the document: the upper left corner of the area that it belongs to comes to lie a
/// quarter point below the lower left corner of the area of the page before, to a thousandth of a
/// point. It is clipped to that area and has no meaning of its own.
pub proof fn foot_continues_the_page(
    paint: Seq<CommandView>,
    source: HtmlPageFit,
    destination: HtmlPageFit,
    scale: Ratio,
    number_of_source: nat,
)
    requires
        source.page_size == destination.page_size,
        keeps_to_itself(paint),
        area_is_countable(source.page_area),
        area_is_countable(destination.page_area),
        0 <= source.page_size.height.milli <= 0x1000_0000_0000_0000,
        0 <= scale.num <= scale.den,
        scale.den > 0,
    ensures
        exists|at: int, moved: Seq<CommandView>| #[trigger]
            draws_under(
                foot_artifact(paint, source, destination, scale, number_of_source),
                at,
                paint,
                moved,
            ) && continues_below(moved, source, destination, scale),
{
    let cs = foot_artifact(paint, source, destination, scale, number_of_source);
    let to = destination.page_area;
    let open = cs.take(4);
    let close = seq![CommandView::EndMarkedContent, CommandView::RestoreState];
    let n = paint.len() as int;
    let f = fresh_graphics();
    assert(cs =~= open + paint + close);
    reveal_with_fuel(graphics_from, 5);
    let moved = in_force(open, 4);
    let g4 = graphics_from(f, open, 4);
    let clip = open[1];
    let shift = open[3];
    assert(moved =~= seq![clip, shift]);
    assert forall|i: int| 0 <= i < n implies #[trigger] cs[4 + i] == paint[i] && in_force(cs, 4 + i)
        == moved + in_force(paint, i) by {
        graphics_of_prefix(f, cs, open + paint, 4 + i);
        graphics_of_parts(f, open, paint, i);
        graphics_stack(g4, paint, i);
    }
    assert(cs[2] == open[2]);
    assert(cs[4 + n] == close[0]);
    foot_lands(moved, clip, shift, source, destination, scale);
    assert(draws_under(cs, 4, paint, moved));
}

proof fn foot_lands(
    moved: Seq<CommandView>,
    clip: CommandView,
    shift: CommandView,
    source: HtmlPageFit,
    destination: HtmlPageFit,
    scale: Ratio,
)
    requires
        source.page_size == destination.page_size,
        area_is_countable(source.page_area),
        area_is_countable(destination.page_area),
        0 <= source.page_size.height.milli <= 0x1000_0000_0000_0000,
        0 <= scale.num <= scale.den,
        scale.den > 0,
        moved == seq![clip, shift],
        clip == (CommandView::ClipRect {
            x: destination.page_area.x,
            y: destination.page_area.y,
            width: destination.page_area.width,
            height: destination.page_area.height,
        }),
        shift == (CommandView::ConcatMatrix {
            a: scale,
            b: Ratio::zero(),
            c: Ratio::zero(),
            d: scale,
            e: destination.page_area.x.minus(source.page_area.x.scaled(scale)),
            f: destination.page_area.y.plus(destination.page_area.height).minus(
                source.page_area.y.scaled(scale),
            ).plus(pt(250)).plus(source.page_size.height.scaled(scale)).minus(
                destination.page_size.height,
            ),
        }),
    ensures
        continues_below(moved, source, destination, scale),
{
    reveal_with_fuel(image_x, 3);
    reveal_with_fuel(image_y, 3);
    assert(moved.drop_last() =~= seq![clip]);
    assert(moved.drop_last().drop_last() =~= Seq::empty());
    let from = source.page_area;
    let to = destination.page_area;
    let h = source.page_size.height.milli as int;
    let num = scale.num as int;
    let den = scale.den as int;
    scaled_lengths_are_near(from.x, scale);
    scaled_lengths_are_near(from.y, scale);
    scaled_lengths_are_near(source.page_size.height, scale);
    let sx = from.x.scaled(scale).milli as int;
    let sy = from.y.scaled(scale).milli as int;
    let sh = source.page_size.height.scaled(scale).milli as int;
    let e = to.x.milli - sx;
    let bottom = to.y.milli + to.height.milli + 250;
    let f = bottom - sy + sh - h;
    let one = (from.x.milli as int, 1int);
    let two = (from.y.milli - h, 1int);
    assert(one.1 * den == den && two.1 * den == den) by (nonlinear_arith)
        requires
            one.1 == 1,
            two.1 == 1,
    ;
    let x = image_x(moved, one);
    let y = image_y(moved, two);
    assert(x == (one.0 * num + e * den, den));
    assert(y == (two.0 * num + f * den, den));
    assert(e * den == to.x.milli * den - sx * den) by (nonlinear_arith)
        requires
            e == to.x.milli - sx,
    ;
    assert(f * den == bottom * den - sy * den + sh * den - h * den) by (nonlinear_arith)
        requires
            f == bottom - sy + sh - h,
    ;
    let fy = from.y.milli as int;
    assert(two.0 * num == fy * num - h * num) by (nonlinear_arith)
        requires
            two.0 == fy - h,
    ;
}

// ---------------------------------------------------------------------------------------------
// The proportion of a document
// ---------------------------------------------------------------------------------------------
/// Every note with the key is among those collected: those of the list and those of its forms.
pub proof fn notes_are_all(cs: Seq<CommandView>, key: Seq<char>)
    ensures
        forall|i: int|
            0 <= i < cs.len() ==> match #[trigger] cs[i] {
                CommandView::Meta { key: k, value } => k == key ==> notes(cs, key).contains(value),
                CommandView::DefineForm { resource_id, width, height, commands } => forall|v|
                    notes(commands, key).contains(v) ==> #[trigger] notes(cs, key).contains(v),
                CommandView::DefineIsolatedForm {
                    resource_id,
                    width,
                    height,
                    commands,
                } => forall|v|
                    notes(commands, key).contains(v) ==> #[trigger] notes(cs, key).contains(v),
                _ => true,
            },
    decreases cs.len(),
{
    if cs.len() > 0 {
        notes_are_all(cs.drop_last(), key);
        let before = notes(cs.drop_last(), key);
        let now = notes(cs, key);
        assert forall|v: Seq<char>| before.contains(v) implies #[trigger] now.contains(v) by {
            let i = choose|i: int| 0 <= i < before.len() && before[i] == v;
            assert(now[i] == v);
        }
        let last = cs.len() - 1;
        match cs.last() {
            CommandView::Meta { key: k, value } => {
                if k == key {
                    assert(now[now.len() - 1] == value);
                }
            },
            CommandView::DefineForm { resource_id, width, height, commands } => {
                tail_contains(before, notes(commands, key));
            },
            CommandView::DefineIsolatedForm { resource_id, width, height, commands } => {
                tail_contains(before, notes(commands, key));
            },
            _ => {},
        }
        assert forall|i: int| 0 <= i < cs.len() implies match #[trigger] cs[i] {
            CommandView::Meta { key: k, value } => k == key ==> notes(cs, key).contains(value),
            CommandView::DefineForm { resource_id, width, height, commands } => forall|v|
                notes(commands, key).contains(v) ==> #[trigger] notes(cs, key).contains(v),
            CommandView::DefineIsolatedForm { resource_id, width, height, commands } => forall|v|
                notes(commands, key).contains(v) ==> #[trigger] notes(cs, key).contains(v),
            _ => true,
        } by {
            if i < last {
                assert(cs.drop_last()[i] == cs[i]);
            }
        }
    }
}

proof fn tail_contains(a: Seq<Seq<char>>, b: Seq<Seq<char>>)
    ensures
        forall|v: Seq<char>| b.contains(v) ==> #[trigger] (a + b).contains(v),
{
    assert forall|v: Seq<char>| b.contains(v) implies #[trigger] (a + b).contains(v) by {
        let i = choose|i: int| 0 <= i < b.len() && b[i] == v;
        assert((a + b)[a.len() + i] == v);
    }
}

proof fn largest_is_largest(values: Seq<Seq<char>>, start: int)
    ensures
        start <= largest_from(values, start),
        forall|v: Seq<char>|
            #[trigger] values.contains(v) && number(v) is Some ==> number(v)->0 <= largest_from(
                values,
                start,
            ),
        largest_from(values, start) == start || exists|v: Seq<char>|
            #[trigger] values.contains(v) && number(v) == Some(largest_from(values, start)),
    decreases values.len(),
{
    if values.len() > 0 {
        let before = values.drop_last();
        largest_is_largest(before, start);
        let last = values.last();
        assert(values[values.len() - 1] == last);
        assert(values.contains(last));
        assert forall|v: Seq<char>| #[trigger] values.contains(v) && number(v) is Some implies number(
            v,
        )->0 <= largest_from(values, start) by {
            let i = choose|i: int| 0 <= i < values.len() && values[i] == v;
            if i < before.len() {
                assert(before[i] == v);
                assert(before.contains(v));
            }
        }
        if largest_from(values, start) != start && largest_from(values, start) == largest_from(
            before,
            start,
        ) {
            let v = choose|v: Seq<char>|
                #[trigger] before.contains(v) && number(v) == Some(largest_from(before, start));
            let i = choose|i: int| 0 <= i < before.len() && before[i] == v;
            assert(values[i] == v);
            assert(values.contains(v));
        }
    }
}

/// No noted right edge of the page lies further from its area than can be counted.
pub open spec fn edges_are_countable(cs: Seq<CommandView>, size: Size) -> bool {
    forall|v: Seq<char>|
        #[trigger] notes(cs, META_HTML_SCROLLABLE_RIGHT_KEY@).contains(v) && number(v) is Some
            ==> number(v)->0 - area_of_page(cs, size).x.milli <= i64::MAX
}

/// The page has a right edge noted at `right`.
pub open spec fn notes_right_edge(cs: Seq<CommandView>, right: int) -> bool {
    exists|v: Seq<char>|
        #[trigger] notes(cs, META_HTML_SCROLLABLE_RIGHT_KEY@).contains(v) && number(v) == Some(
            right,
        )
}

proof fn local_scale_holds(cs: Seq<CommandView>, size: Size)
    requires
        size_of_page(cs, size).width.milli > 0,
        edges_are_countable(cs, size),
    ensures
        ({
            let area = area_of_page(cs, size);
            let s = local_scale(cs, size);
            &&& area.width.milli > 0
            &&& s.num > 0 && s.den > 0 && s.num <= s.den
            &&& forall|right: int| #[trigger]
                notes_right_edge(cs, right) ==> (right - area.x.milli) * s.num <= area.width.milli
                    * s.den
            &&& s.num < s.den ==> exists|right: int| #[trigger]
                notes_right_edge(cs, right) && (right - area.x.milli) * s.num == area.width.milli
                    * s.den
            &&& forall|right: int| #[trigger]
                notes_right_edge(cs, right) && right - area.x.milli > area.width.milli ==> s.num * (
                right - area.x.milli) <= s.den * area.width.milli && s.num < s.den
        }),
{
    let area = area_of_page(cs, size);
    let s = local_scale(cs, size);
    noted_areas_are_wide(cs, 0);
    let x = area.x.milli as int;
    let w = area.width.milli as int;
    let allowed = area.x.plus(area.width).milli as int;
    let all = notes(cs, META_HTML_SCROLLABLE_RIGHT_KEY@);
    let most = largest_from(all, allowed);
    largest_is_largest(all, allowed);
    if most > allowed {
        let v = choose|v: Seq<char>| #[trigger] all.contains(v) && number(v) == Some(most);
        assert(notes_right_edge(cs, most));
        assert(number(v)->0 <= i64::MAX);
        assert(s.num == w && s.den == most - x);
        assert((most - x) * w == w * (most - x)) by (nonlinear_arith);
    } else {
        assert(s == Ratio::one());
    }
    assert forall|right: int| #[trigger] notes_right_edge(cs, right) implies (right - x) * s.num <= w
        * s.den by {
        assert(right <= most);
        assert((right - x) * s.num <= w * s.den) by (nonlinear_arith)
            requires
                right <= most,
                most > allowed ==> s.num == w && s.den == most - x,
                most <= allowed ==> s.num == 1 && s.den == 1 && most <= x + w,
                w > 0,
        ;
    }
    assert forall|right: int| #[trigger]
        notes_right_edge(cs, right) && right - x > w implies s.num * (right - x) <= s.den * w
        && s.num < s.den by {
        assert(right <= most);
        assert((right - x) * s.num <= w * s.den);
        assert(s.num * (right - x) == (right - x) * s.num) by (nonlinear_arith);
        assert(s.den * w == w * s.den) by (nonlinear_arith);
    }
}

proof fn scales_are_proper(d: DocumentView)
    ensures
        forall|i: int| 0 <= i < fits_of(d).len() ==> (#[trigger] fits_of(d)[i]).local_scale.is_proper(),
{
    assert forall|i: int| 0 <= i < fits_of(d).len() implies (#[trigger] fits_of(
        d,
    )[i]).local_scale.is_proper() by {
        noted_areas_are_wide(d.pages[i], 0);
    }
}

proof fn least_is_one_of_them(fits: Seq<HtmlPageFit>, n: int)
    requires
        0 <= n <= fits.len(),
    ensures
        least_scale(fits, n) == Ratio::one() || exists|i: int|
            0 <= i < n && (#[trigger] fits[i]).local_scale == least_scale(fits, n),
    decreases n,
{
    if n > 0 {
        least_is_one_of_them(fits, n - 1);
        if !fits[n - 1].local_scale.is_below(least_scale(fits, n - 1)) {
            if least_scale(fits, n) != Ratio::one() {
                let i = choose|i: int|
                    0 <= i < n - 1 && (#[trigger] fits[i]).local_scale == least_scale(fits, n - 1);
                assert(fits[i].local_scale == least_scale(fits, n));
            }
        } else {
            assert(fits[n - 1].local_scale == least_scale(fits, n));
        }
    }
}

/// No noted right edge of a scaled document lies beyond the right edge of its page area, once it is
/// scaled about the left edge of that area.
pub proof fn right_edges_stay_inside(d: DocumentView, p: int, right: int)
    requires
        0 <= p < d.pages.len(),
        is_scaled(fits_of(d)),
        size_of_page(d.pages[p], d.page_size).width.milli > 0,
        edges_are_countable(d.pages[p], d.page_size),
        notes_right_edge(d.pages[p], right),
    ensures
        ({
            let area = area_of_page(d.pages[p], d.page_size);
            let s = document_scale(fits_of(d));
            &&& 0 <= s.num < s.den
            &&& (right - area.x.milli) * s.num <= area.width.milli * s.den
            &&& forall|added: Seq<CommandView>| #[trigger]
                scales_about(added, area, s) ==> image_x(added, (right, 1)).1 > 0 && image_x(
                    added,
                    (right, 1),
                ).0 <= (area.x.milli + area.width.milli) * image_x(added, (right, 1)).1
        }),
{
    let fits = fits_of(d);
    let area = area_of_page(d.pages[p], d.page_size);
    let s = document_scale(fits);
    scales_are_proper(d);
    document_scale_is_least(fits, fits.len() as int);
    local_scale_holds(d.pages[p], d.page_size);
    let l = fits[p].local_scale;
    assert(l == local_scale(d.pages[p], d.page_size));
    assert(!l.is_below(s));
    let x = area.x.milli as int;
    let w = area.width.milli as int;
    assert((right - x) * l.num <= w * l.den);
    assert((right - x) * s.num <= w * s.den) by (nonlinear_arith)
        requires
            (right - x) * l.num <= w * l.den,
            l.num * s.den >= s.num * l.den,
            l.num > 0,
            l.den > 0,
            s.num >= 0,
            s.den > 0,
            w > 0,
    {
        if right - x <= 0 {
            assert((right - x) * s.num <= 0);
            assert(w * s.den >= 0);
        } else {
            assert((right - x) * s.num * l.den <= (right - x) * (l.num * s.den));
            assert((right - x) * l.num * s.den <= w * l.den * s.den);
            assert((right - x) * s.num * l.den <= w * s.den * l.den);
        }
    }
    assert(0 <= s.num < s.den);
    assert forall|added: Seq<CommandView>| #[trigger] scales_about(added, area, s) implies image_x(
        added,
        (right, 1),
    ).1 > 0 && image_x(added, (right, 1)).0 <= (area.x.milli + area.width.milli) * image_x(
        added,
        (right, 1),
    ).1 by {
        assert(image_x(added, (right, 1)) == ((right - x) * s.num + x * s.den, s.den as int));
        assert((x + w) * s.den == x * s.den + w * s.den) by (nonlinear_arith);
    }
}

/// A scaled document is scaled no more than it must be: on one of its pages a noted right edge comes
/// to lie on the right edge of the page area.
pub proof fn scale_is_needed(d: DocumentView)
    requires
        is_scaled(fits_of(d)),
        forall|p: int|
            0 <= p < d.pages.len() ==> size_of_page(
                #[trigger] d.pages[p],
                d.page_size,
            ).width.milli > 0 && edges_are_countable(d.pages[p], d.page_size),
    ensures
        exists|p: int, right: int|
            0 <= p < d.pages.len() && #[trigger] notes_right_edge(d.pages[p], right) && (right
                - area_of_page(d.pages[p], d.page_size).x.milli) * document_scale(fits_of(d)).num
                == area_of_page(d.pages[p], d.page_size).width.milli * document_scale(
                fits_of(d),
            ).den,
{
    let fits = fits_of(d);
    let s = document_scale(fits);
    least_is_one_of_them(fits, fits.len() as int);
    let p = choose|i: int|
        0 <= i < fits.len() && (#[trigger] fits[i]).local_scale == least_scale(
            fits,
            fits.len() as int,
        );
    let cs = d.pages[p];
    local_scale_holds(cs, d.page_size);
    assert(s == local_scale(cs, d.page_size));
    let right = choose|right: int| #[trigger]
        notes_right_edge(cs, right) && (right - area_of_page(cs, d.page_size).x.milli) * s.num
            == area_of_page(cs, d.page_size).width.milli * s.den;
    assert(notes_right_edge(d.pages[p], right));
}

/// A document is scaled where a noted right edge lies beyond its page area, by more than is lost
/// between two neighbouring single-precision numbers.
pub proof fn wide_documents_are_scaled(d: DocumentView, p: int, right: int)
    requires
        0 <= p < d.pages.len(),
        size_of_page(d.pages[p], d.page_size).width.milli > 0,
        edges_are_countable(d.pages[p], d.page_size),
        notes_right_edge(d.pages[p], right),
        ({
            let area = area_of_page(d.pages[p], d.page_size);
            let reach = right - area.x.milli;
            (reach - area.width.milli) * 33_554_432 > reach && reach > 0
        }),
    ensures
        is_scaled(fits_of(d)),
{
    let fits = fits_of(d);
    let area = area_of_page(d.pages[p], d.page_size);
    let least = least_scale(fits, fits.len() as int);
    scales_are_proper(d);
    document_scale_is_least(fits, fits.len() as int);
    local_scale_holds(d.pages[p], d.page_size);
    let l = fits[p].local_scale;
    assert(l == local_scale(d.pages[p], d.page_size));
    assert(!l.is_below(least));
    let reach = right - area.x.milli;
    let w = area.width.milli as int;
    assert(reach * l.num <= w * l.den);
    assert(reach * least.num <= w * least.den) by (nonlinear_arith)
        requires
            reach * l.num <= w * l.den,
            l.num * least.den >= least.num * l.den,
            l.num > 0,
            l.den > 0,
            least.den > 0,
            reach > 0,
    {
        assert(reach * least.num * l.den <= reach * (l.num * least.den));
        assert(reach * l.num * least.den <= w * l.den * least.den);
        assert(reach * least.num * l.den <= w * least.den * l.den);
    }
    assert((least.den - least.num) * 33_554_432 > least.den) by (nonlinear_arith)
        requires
            reach * least.num <= w * least.den,
            (reach - w) * 33_554_432 > reach,
            reach > 0,
            least.den > 0,
    {
        assert(reach * (least.den - least.num) >= (reach - w) * least.den);
        assert((reach - w) * 33_554_432 * least.den > reach * least.den);
        assert(reach * ((least.den - least.num) * 33_554_432) > reach * least.den);
    }
}

// ---------------------------------------------------------------------------------------------
// The background of the root
// ---------------------------------------------------------------------------------------------
/// Command `i` notes that a root background begins or ends.
pub open spec fn notes_background(cs: Seq<CommandView>, i: int, value: Seq<char>) -> bool {
    cs[i] == (CommandView::Meta { key: META_HTML_CANVAS_BACKGROUND_KEY@, value })
}

proof fn depth_between(cs: Seq<CommandView>, a: int, b: int)
    requires
        0 <= a <= b <= cs.len(),
        forall|i: int|
            a <= i < b ==> !#[trigger] notes_background(cs, i, "begin"@) && !notes_background(
                cs,
                i,
                "end"@,
            ),
    ensures
        background_depth(cs, b) == background_depth(cs, a),
    decreases b - a,
{
    if a < b {
        depth_between(cs, a, b - 1);
        assert(!notes_background(cs, b - 1, "begin"@));
    }
}

/// In a scaled document the rectangles of the root background are a quarter point higher, and no
/// other command is changed: those behind the note that a background begins are, up to the note that
/// it ends, and those that no such note stands before are not.
pub proof fn backgrounds_are_extended(cs: Seq<CommandView>, a: int, i: int)
    requires
        0 <= a <= i < cs.len(),
        a < i ==> forall|j: int|
            a < j < i ==> !#[trigger] notes_background(cs, j, "begin"@) && !notes_background(
                cs,
                j,
                "end"@,
            ),
    ensures
        a < i && notes_background(cs, a, "begin"@) ==> match (
            cs[i],
            extended_background(cs, pt(250))[i],
        ) {
            (
                CommandView::DrawRect { x, y, width, height },
                CommandView::DrawRect { x: x2, y: y2, width: width2, height: height2 },
            ) => x == x2 && y == y2 && width == width2 && (height.milli <= 0x4000_0000_0000_0000
                ==> height2.milli == height.milli + 250),
            (old_command, new_command) => old_command == new_command,
        },
        (forall|j: int| 0 <= j < i ==> !#[trigger] notes_background(cs, j, "begin"@))
            ==> extended_background(cs, pt(250))[i] == cs[i],
        extended_background(cs, pt(250)).len() == cs.len(),
{
    if a < i && notes_background(cs, a, "begin"@) {
        depth_between(cs, a + 1, i);
        assert(background_depth(cs, a + 1) > 0);
    }
    if forall|j: int| 0 <= j < i ==> !#[trigger] notes_background(cs, j, "begin"@) {
        no_depth(cs, i);
    }
}

proof fn no_depth(cs: Seq<CommandView>, n: int)
    requires
        0 <= n <= cs.len(),
        forall|j: int| 0 <= j < n ==> !#[trigger] notes_background(cs, j, "begin"@),
    ensures
        background_depth(cs, n) == 0,
    decreases n,
{
    if n > 0 {
        no_depth(cs, n - 1);
        assert(!notes_background(cs, n - 1, "begin"@));
    }
}

// ---------------------------------------------------------------------------------------------
// Scopes that overflow
// ---------------------------------------------------------------------------------------------
/// Between commands `a` and `b` the owner of a scope is noted.
pub open spec fn notes_owner(cs: Seq<CommandView>, a: int, b: int, owner: Seq<char>) -> bool {
    exists|i: int| a < i < b && #[trigger] note(cs[i], META_OWNER_PATH_KEY@) == Some(owner)
}

/// Between commands `a` and `b` a lower edge is noted at `bottom`.
pub open spec fn notes_bottom(cs: Seq<CommandView>, a: int, b: int, bottom: int) -> bool {
    exists|i: int|
        a < i < b && (#[trigger] note(cs[i], META_HTML_SCROLLABLE_BOTTOM_KEY@) matches Some(v)
            && number(v) == Some(bottom))
}

/// A scope goes from the note that it begins to the note that it ends, its owner is noted inside,
/// and so is a lower edge below what is allowed.
pub open spec fn is_overflowing_scope(
    cs: Seq<CommandView>,
    s: OverflowScope,
    allowed: int,
) -> bool {
    &&& 0 <= s.start < s.end < cs.len()
    &&& note(cs[s.start], META_DIAGNOSTIC_SCOPE_BEGIN_KEY@) is Some
    &&& note(cs[s.end], META_DIAGNOSTIC_SCOPE_END_KEY@) is Some
    &&& notes_owner(cs, s.start, s.end, s.owner)
    &&& exists|bottom: int| bottom > allowed && #[trigger] notes_bottom(cs, s.start, s.end, bottom)
}

/// What is known of an open scope was noted since it began.
spec fn is_open_scope(cs: Seq<CommandView>, s: OpenScope, n: int) -> bool {
    &&& 0 <= s.start < n
    &&& note(cs[s.start], META_DIAGNOSTIC_SCOPE_BEGIN_KEY@) is Some
    &&& s.owner matches Some(o) ==> notes_owner(cs, s.start, n, o)
    &&& s.bottom matches Some(b) ==> notes_bottom(cs, s.start, n, b)
}

proof fn open_scope_stays(cs: Seq<CommandView>, s: OpenScope, n: int)
    requires
        is_open_scope(cs, s, n),
    ensures
        is_open_scope(cs, s, n + 1),
{
    match s.owner {
        Some(o) => {
            let i = choose|i: int|
                s.start < i < n && #[trigger] note(cs[i], META_OWNER_PATH_KEY@) == Some(o);
            assert(note(cs[i], META_OWNER_PATH_KEY@) == Some(o));
        },
        None => {},
    }
    match s.bottom {
        Some(b) => {
            let i = choose|i: int|
                s.start < i < n && (#[trigger] note(
                    cs[i],
                    META_HTML_SCROLLABLE_BOTTOM_KEY@,
                ) matches Some(v) && number(v) == Some(b));
            assert(note(cs[i], META_HTML_SCROLLABLE_BOTTOM_KEY@) is Some);
        },
        None => {},
    }
}

proof fn scan_finds_scopes(cs: Seq<CommandView>, n: int, allowed: int)
    requires
        0 <= n <= cs.len(),
    ensures
        forall|k: int|
            0 <= k < scope_scan(cs, n, allowed).open.len() ==> is_open_scope(
                cs,
                #[trigger] scope_scan(cs, n, allowed).open[k],
                n,
            ),
        forall|k: int|
            0 <= k < scope_scan(cs, n, allowed).closed.len() ==> is_overflowing_scope(
                cs,
                #[trigger] scope_scan(cs, n, allowed).closed[k],
                allowed,
            ),
    decreases n,
{
    if n > 0 {
        scan_finds_scopes(cs, n - 1, allowed);
        let before = scope_scan(cs, n - 1, allowed);
        let now = scope_scan(cs, n, allowed);
        let c = cs[n - 1];
        assert forall|k: int| 0 <= k < now.open.len() implies is_open_scope(
            cs,
            #[trigger] now.open[k],
            n,
        ) by {
            if k < before.open.len() {
                let s = before.open[k];
                open_scope_stays(cs, s, n - 1);
                if now.open[k] != s {
                    assert(k == before.open.len() - 1);
                    let t = now.open[k];
                    if note(c, META_OWNER_PATH_KEY@) is Some {
                        assert(note(cs[n - 1], META_OWNER_PATH_KEY@) == t.owner);
                        assert(notes_owner(cs, t.start, n, t.owner->0));
                    } else {
                        assert(note(cs[n - 1], META_HTML_SCROLLABLE_BOTTOM_KEY@) is Some);
                        let v = note(c, META_HTML_SCROLLABLE_BOTTOM_KEY@)->0;
                        if t.bottom is Some && number(v) == t.bottom {
                            assert(notes_bottom(cs, t.start, n, t.bottom->0));
                        }
                    }
                }
            }
        }
        assert forall|k: int| 0 <= k < now.closed.len() implies is_overflowing_scope(
            cs,
            #[trigger] now.closed[k],
            allowed,
        ) by {
            if k < before.closed.len() {
                assert(now.closed[k] == before.closed[k]);
            } else {
                let top = before.open[before.open.len() - 1];
                assert(is_open_scope(cs, top, n - 1));
                assert(notes_bottom(cs, top.start, n - 1, top.bottom->0));
            }
        }
    }
}

proof fn outermost_are_among(scopes: Seq<OverflowScope>, n: int)
    requires
        0 <= n <= scopes.len(),
    ensures
        forall|k: int|
            0 <= k < outermost(scopes, n).len() ==> exists|i: int|
                0 <= i < n && !is_covered(scopes, i) && #[trigger] scopes[i] == (
                #[trigger] outermost(scopes, n)[k]),
        forall|i: int|
            0 <= i < n && !is_covered(scopes, i) ==> outermost(scopes, n).contains(
                #[trigger] scopes[i],
            ),
    decreases n,
{
    if n > 0 {
        outermost_are_among(scopes, n - 1);
        let before = outermost(scopes, n - 1);
        let now = outermost(scopes, n);
        assert forall|k: int| 0 <= k < now.len() implies exists|i: int|
            0 <= i < n && !is_covered(scopes, i) && #[trigger] scopes[i] == (#[trigger] now[k]) by {
            if k < before.len() {
                assert(now[k] == before[k]);
                let i = choose|i: int|
                    0 <= i < n - 1 && !is_covered(scopes, i) && #[trigger] scopes[i] == before[k];
                assert(scopes[i] == now[k]);
            } else {
                assert(scopes[n - 1] == now[k]);
            }
        }
        assert forall|i: int| 0 <= i < n && !is_covered(scopes, i) implies now.contains(
            #[trigger] scopes[i],
        ) by {
            if i < n - 1 {
                let k = choose|k: int| 0 <= k < before.len() && before[k] == scopes[i];
                assert(now[k] == scopes[i]);
            } else {
                assert(now[now.len() - 1] == scopes[i]);
            }
        }
    }
}

/// Every scope whose paint goes on to the next page overflows: it has an owner, and paints below
/// what is allowed. None of them lies inside another scope that overflows.
pub proof fn carried_scopes_overflow(cs: Seq<CommandView>, allowed: int, k: int)
    requires
        0 <= k < overflow_scopes(cs, allowed).len(),
    ensures
        is_overflowing_scope(cs, overflow_scopes(cs, allowed)[k], allowed),
        exists|i: int|
            {
                let closed = scope_scan(cs, cs.len() as int, allowed).closed;
                0 <= i < closed.len() && #[trigger] scope_scan(
                    cs,
                    cs.len() as int,
                    allowed,
                ).closed[i] == overflow_scopes(cs, allowed)[k] && !is_covered(closed, i)
            },
{
    let n = cs.len() as int;
    scan_finds_scopes(cs, n, allowed);
    let closed = scope_scan(cs, n, allowed).closed;
    outermost_are_among(closed, closed.len() as int);
    let s = overflow_scopes(cs, allowed)[k];
    let i = choose|i: int|
        0 <= i < closed.len() && !is_covered(closed, i) && #[trigger] closed[i] == s;
    assert(is_overflowing_scope(cs, closed[i], allowed));
    assert(scope_scan(cs, n, allowed).closed[i] == s);
}

/// Paint goes on in front of a scope of its owner: there a scope begins, and behind that its owner is
/// noted.
pub proof fn paint_goes_on_before_its_owner(
    cs: Seq<CommandView>,
    i: int,
    starts: Seq<int>,
    owner: Seq<char>,
)
    requires
        0 <= i,
        forall|k: int|
            0 <= k < starts.len() ==> 0 <= #[trigger] starts[k] < i && starts[k] < cs.len() && note(
                cs[starts[k]],
                META_DIAGNOSTIC_SCOPE_BEGIN_KEY@,
            ) is Some,
    ensures
        owner_start(cs, i, starts, owner) matches Some(at) ==> {
            &&& 0 <= at < cs.len()
            &&& note(cs[at], META_DIAGNOSTIC_SCOPE_BEGIN_KEY@) is Some
            &&& notes_owner(cs, at, cs.len() as int, owner)
        },
    decreases cs.len() - i,
{
    if i < cs.len() {
        if note(cs[i], META_DIAGNOSTIC_SCOPE_BEGIN_KEY@) is Some {
            paint_goes_on_before_its_owner(cs, i + 1, starts.push(i), owner);
        } else if note(cs[i], META_OWNER_PATH_KEY@) == Some(owner) && starts.len() > 0 {
            let at = starts[starts.len() - 1];
            assert(0 <= at < i);
            assert(note(cs[i], META_OWNER_PATH_KEY@) == Some(owner));
        } else if note(cs[i], META_OWNER_PATH_KEY@) != Some(owner) && note(
            cs[i],
            META_DIAGNOSTIC_SCOPE_END_KEY@,
        ) is Some && starts.len() > 0 {
            paint_goes_on_before_its_owner(cs, i + 1, starts.drop_last(), owner);
        } else {
            paint_goes_on_before_its_owner(cs, i + 1, starts, owner);
        }
    }
}

/// A list is replayed part by part, in its order.
pub proof fn lists_are_replayed_in_order(a: Seq<CommandView>, b: Seq<CommandView>)
    ensures
        replay(a + b) == replay(a) + replay(b),
    decreases b.len(),
{
    if b.len() == 0 {
        assert(a + b =~= a);
        assert(replay(a) + replay(b) =~= replay(a));
    } else {
        lists_are_replayed_in_order(a, b.drop_last());
        assert((a + b).drop_last() =~= a + b.drop_last());
        assert((a + b).last() == b.last());
        assert(replay(a + b) =~= replay(a) + replay(b));
    }
}

/// A single command is replayed as it is, unless it is a note or a tag, which vanish, or a form,
/// whose commands are replayed.
pub proof fn single_commands_are_replayed(c: CommandView)
    ensures
        ({
            let r = replay(seq![c]);
            match c {
                CommandView::Meta { key, value } => r.len() == 0,
                CommandView::BeginTag {
                    role,
                    mcid,
                    alt,
                    scope,
                    table_id,
                    col_index,
                    group_only,
                } => r.len() == 0,
                CommandView::BeginTagActualText { role, actual_text, mcid } => r.len() == 0,
                CommandView::EndTag => r.len() == 0,
                CommandView::DefineForm { resource_id, width, height, commands } => r == seq![
                    CommandView::DefineForm {
                        resource_id,
                        width,
                        height,
                        commands: replay(commands),
                    },
                ],
                CommandView::DefineIsolatedForm {
                    resource_id,
                    width,
                    height,
                    commands,
                } => r == seq![
                    CommandView::DefineIsolatedForm {
                        resource_id,
                        width,
                        height,
                        commands: replay(commands),
                    },
                ],
                _ => r == seq![c],
            }
        }),
{
    reveal_with_fuel(replay, 3);
    assert(seq![c].drop_last() =~= Seq::empty());
    assert(replay(seq![c]) =~= crate::shrink::replayed(c));
}

} // verus!
