//! Paint that crosses the edge between two pages, and the fit of a whole document.
use vstd::prelude::*;

use crate::command::{
    copy_commands, copy_range, emit, emit_all, model_of_form, models, Command, CommandView,
    Document, DocumentView, Page,
};
use crate::geometry::{pt, Pt, Ratio, Rect, Size};
use crate::pmr::optional;
use crate::shrink::{
    area_bottom, area_of_page, background_depth, content_from,
    extend_html_canvas_background_block_end, extended_background, fit_page, heightened,
    join_largest, larger_known, largest, local_scale, note, note_of, notes, number, number_of,
    overflows_bottom, overflows_top, replay, size_of_page, smallest, visual_replay_commands, whole,
    HtmlPageFit, META_DIAGNOSTIC_SCOPE_BEGIN_KEY, META_DIAGNOSTIC_SCOPE_END_KEY,
    META_HTML_SCROLLABLE_BOTTOM_KEY, META_HTML_SCROLLABLE_TOP_KEY, META_OWNER_PATH_KEY,
};
use crate::text::{concat, count_text, decimal, same};

verus! {

broadcast use vstd::string::group_string_axioms;

// ---------------------------------------------------------------------------------------------
// Scopes that overflow
// ---------------------------------------------------------------------------------------------
/// A scope that is still open: where it started, who owns it and how far down it paints.
pub struct OpenScope {
    pub start: int,
    pub owner: Option<Seq<char>>,
    pub bottom: Option<int>,
}

/// A scope that paints below the page area.
pub struct OverflowScope {
    pub owner: Seq<char>,
    pub start: int,
    pub end: int,
}

/// The scopes seen so far.
pub struct ScopeScan {
    pub open: Seq<OpenScope>,
    pub closed: Seq<OverflowScope>,
}

/// The scopes after command `i`. Owner and reach belong to the innermost open scope; a scope is
/// reported when it closes with an owner and a reach below `allowed`.
pub open spec fn scope_step(s: ScopeScan, c: CommandView, i: int, allowed: int) -> ScopeScan {
    let top = s.open.last();
    if note(c, META_DIAGNOSTIC_SCOPE_BEGIN_KEY@) is Some {
        ScopeScan {
            open: s.open.push(OpenScope { start: i, owner: None, bottom: None }),
            closed: s.closed,
        }
    } else if s.open.len() == 0 {
        s
    } else if note(c, META_OWNER_PATH_KEY@) is Some {
        ScopeScan {
            open: s.open.drop_last().push(
                OpenScope {
                    start: top.start,
                    owner: note(c, META_OWNER_PATH_KEY@),
                    bottom: top.bottom,
                },
            ),
            closed: s.closed,
        }
    } else if note(c, META_HTML_SCROLLABLE_BOTTOM_KEY@) is Some {
        ScopeScan {
            open: s.open.drop_last().push(
                OpenScope {
                    start: top.start,
                    owner: top.owner,
                    bottom: join_largest(
                        top.bottom,
                        number(note(c, META_HTML_SCROLLABLE_BOTTOM_KEY@)->0),
                    ),
                },
            ),
            closed: s.closed,
        }
    } else if note(c, META_DIAGNOSTIC_SCOPE_END_KEY@) is Some {
        ScopeScan {
            open: s.open.drop_last(),
            closed: if top.bottom is Some && top.bottom->0 > allowed && top.owner is Some {
                s.closed.push(OverflowScope { owner: top.owner->0, start: top.start, end: i })
            } else {
                s.closed
            },
        }
    } else {
        s
    }
}

/// The scopes after the first `n` commands.
pub open spec fn scope_scan(cs: Seq<CommandView>, n: int, allowed: int) -> ScopeScan
    decreases n,
{
    if n <= 0 {
        ScopeScan { open: Seq::empty(), closed: Seq::empty() }
    } else {
        scope_step(scope_scan(cs, n - 1, allowed), cs[n - 1], n - 1, allowed)
    }
}

/// Scope `i` lies inside another one.
pub open spec fn is_covered(scopes: Seq<OverflowScope>, i: int) -> bool {
    exists|j: int|
        0 <= j < scopes.len() && j != i && (#[trigger] scopes[j]).start <= scopes[i].start
            && scopes[j].end >= scopes[i].end
}

/// The outermost ones among the first `n` scopes: replaying an outer scope replays what it holds.
pub open spec fn outermost(scopes: Seq<OverflowScope>, n: int) -> Seq<OverflowScope>
    decreases n,
{
    if n <= 0 {
        Seq::empty()
    } else if is_covered(scopes, n - 1) {
        outermost(scopes, n - 1)
    } else {
        outermost(scopes, n - 1).push(scopes[n - 1])
    }
}

/// The outermost scopes of a page that paint below `allowed`.
pub open spec fn overflow_scopes(cs: Seq<CommandView>, allowed: int) -> Seq<OverflowScope> {
    let closed = scope_scan(cs, cs.len() as int, allowed).closed;
    outermost(closed, closed.len() as int)
}

struct OpenDiagnosticScope {
    start: usize,
    owner: Option<String>,
    bottom: Option<i64>,
}

struct HtmlBlockEndOverflowScope {
    owner: String,
    start: usize,
    end: usize,
}

spec fn open_models(v: Seq<OpenDiagnosticScope>) -> Seq<OpenScope> {
    Seq::new(
        v.len(),
        |i: int|
            OpenScope {
                start: v[i].start as int,
                owner: optional(v[i].owner),
                bottom: whole(v[i].bottom),
            },
    )
}

spec fn closed_models(v: Seq<HtmlBlockEndOverflowScope>) -> Seq<OverflowScope> {
    Seq::new(
        v.len(),
        |i: int|
            OverflowScope { owner: v[i].owner@, start: v[i].start as int, end: v[i].end as int },
    )
}

/// Scopes start before they end, and end inside the list.
proof fn scopes_in_range(cs: Seq<CommandView>, n: int, allowed: int)
    requires
        0 <= n <= cs.len(),
    ensures
        forall|k: int|
            0 <= k < scope_scan(cs, n, allowed).open.len() ==> 0 <= (#[trigger] scope_scan(
                cs,
                n,
                allowed,
            ).open[k]).start < n,
        forall|k: int|
            0 <= k < scope_scan(cs, n, allowed).closed.len() ==> 0 <= (#[trigger] scope_scan(
                cs,
                n,
                allowed,
            ).closed[k]).start < scope_scan(cs, n, allowed).closed[k].end < n,
    decreases n,
{
    if n > 0 {
        scopes_in_range(cs, n - 1, allowed);
    }
}

fn html_block_end_overflow_scopes(list: &Vec<Command>, allowed: i64) -> (out: Vec<
    HtmlBlockEndOverflowScope,
>)
    ensures
        closed_models(out@) == overflow_scopes(models(list@), allowed as int),
        forall|k: int|
            0 <= k < out@.len() ==> (#[trigger] out@[k]).start < out@[k].end < list@.len(),
{
    let ghost all = models(list@);
    let mut stack: Vec<OpenDiagnosticScope> = Vec::new();
    let mut closed: Vec<HtmlBlockEndOverflowScope> = Vec::new();
    let mut i: usize = 0;
    proof {
        assert(open_models(stack@) =~= Seq::empty());
        assert(closed_models(closed@) =~= Seq::empty());
    }
    while i < list.len()
        invariant
            i <= list@.len(),
            all == models(list@),
            open_models(stack@) == scope_scan(all, i as int, allowed as int).open,
            closed_models(closed@) == scope_scan(all, i as int, allowed as int).closed,
        decreases list@.len() - i,
    {
        let c = &list[i];
        let ghost s = scope_scan(all, i as int, allowed as int);
        proof {
            assert(all[i as int] == c.model());
            assert(open_models(stack@).len() == stack@.len());
        }
        let owner_note = note_of(c, META_OWNER_PATH_KEY);
        let bottom_note = note_of(c, META_HTML_SCROLLABLE_BOTTOM_KEY);
        if note_of(c, META_DIAGNOSTIC_SCOPE_BEGIN_KEY).is_some() {
            stack.push(OpenDiagnosticScope { start: i, owner: None, bottom: None });
            proof {
                assert(open_models(stack@) =~= s.open.push(
                    OpenScope { start: i as int, owner: None, bottom: None },
                ));
            }
        } else {
            let ghost held = stack@;
            match stack.pop() {
                None => {},
                Some(top) => {
                    proof {
                        assert(open_models(stack@) =~= s.open.drop_last());
                        assert(s.open.last() == (OpenScope {
                            start: top.start as int,
                            owner: optional(top.owner),
                            bottom: whole(top.bottom),
                        })) by {
                            assert(open_models(held)[held.len() - 1] == s.open.last());
                        }
                    }
                    match owner_note {
                        Some(v) => {
                            stack.push(
                                OpenDiagnosticScope {
                                    start: top.start,
                                    owner: Some(v.clone()),
                                    bottom: top.bottom,
                                },
                            );
                            proof {
                                assert(open_models(stack@) =~= s.open.drop_last().push(
                                    OpenScope {
                                        start: top.start as int,
                                        owner: Some(v@),
                                        bottom: whole(top.bottom),
                                    },
                                ));
                            }
                        },
                        None => match bottom_note {
                            Some(v) => {
                                let bottom = larger_known(top.bottom, number_of(v));
                                let ghost owner = optional(top.owner);
                                stack.push(
                                    OpenDiagnosticScope {
                                        start: top.start,
                                        owner: top.owner,
                                        bottom,
                                    },
                                );
                                proof {
                                    assert(open_models(stack@) =~= s.open.drop_last().push(
                                        OpenScope {
                                            start: top.start as int,
                                            owner,
                                            bottom: whole(bottom),
                                        },
                                    ));
                                }
                            },
                            None => {
                                if note_of(c, META_DIAGNOSTIC_SCOPE_END_KEY).is_some() {
                                    let below = match top.bottom {
                                        Some(b) => b > allowed,
                                        None => false,
                                    };
                                    if below {
                                        match top.owner {
                                            Some(owner) => {
                                                let ghost name = owner@;
                                                closed.push(
                                                    HtmlBlockEndOverflowScope {
                                                        owner,
                                                        start: top.start,
                                                        end: i,
                                                    },
                                                );
                                                proof {
                                                    assert(closed_models(closed@)
                                                        =~= s.closed.push(
                                                        OverflowScope {
                                                            owner: name,
                                                            start: top.start as int,
                                                            end: i as int,
                                                        },
                                                    ));
                                                }
                                            },
                                            None => {},
                                        }
                                    }
                                } else {
                                    stack.push(top);
                                    proof {
                                        assert(open_models(stack@) =~= s.open);
                                    }
                                }
                            },
                        },
                    }
                },
            }
        }
        i += 1;
    }
    let ghost scopes = closed_models(closed@);
    proof {
        scopes_in_range(all, all.len() as int, allowed as int);
    }
    keep_outermost(closed, Ghost(list@.len()))
}

fn covered(scopes: &Vec<HtmlBlockEndOverflowScope>, i: usize) -> (r: bool)
    requires
        i < scopes@.len(),
    ensures
        r == is_covered(closed_models(scopes@), i as int),
{
    let mut j: usize = 0;
    while j < scopes.len()
        invariant
            j <= scopes@.len(),
            i < scopes@.len(),
            forall|k: int|
                0 <= k < j && k != i ==> !((#[trigger] closed_models(scopes@)[k]).start
                    <= closed_models(scopes@)[i as int].start && closed_models(scopes@)[k].end
                    >= closed_models(scopes@)[i as int].end),
        decreases scopes@.len() - j,
    {
        proof {
            assert(closed_models(scopes@)[j as int].start == scopes@[j as int].start);
        }
        if j != i && scopes[j].start <= scopes[i].start && scopes[j].end >= scopes[i].end {
            return true;
        }
        j += 1;
    }
    false
}

fn keep_outermost(scopes: Vec<HtmlBlockEndOverflowScope>, Ghost(len): Ghost<nat>) -> (out: Vec<
    HtmlBlockEndOverflowScope,
>)
    requires
        forall|k: int|
            0 <= k < closed_models(scopes@).len() ==> 0 <= (#[trigger] closed_models(
                scopes@,
            )[k]).start < closed_models(scopes@)[k].end < len,
    ensures
        closed_models(out@) == outermost(closed_models(scopes@), scopes@.len() as int),
        forall|k: int| 0 <= k < out@.len() ==> (#[trigger] out@[k]).start < out@[k].end < len,
{
    let ghost all = closed_models(scopes@);
    let mut out: Vec<HtmlBlockEndOverflowScope> = Vec::new();
    let mut i: usize = 0;
    proof {
        assert(closed_models(out@) =~= Seq::empty());
    }
    while i < scopes.len()
        invariant
            i <= scopes@.len(),
            all == closed_models(scopes@),
            forall|k: int|
                0 <= k < all.len() ==> 0 <= (#[trigger] all[k]).start < all[k].end < len,
            closed_models(out@) == outermost(all, i as int),
            forall|k: int| 0 <= k < out@.len() ==> (#[trigger] out@[k]).start < out@[k].end < len,
        decreases scopes@.len() - i,
    {
        if !covered(&scopes, i) {
            let ghost before = closed_models(out@);
            proof {
                assert(0 <= all[i as int].start < all[i as int].end < len);
            }
            out.push(
                HtmlBlockEndOverflowScope {
                    owner: scopes[i].owner.clone(),
                    start: scopes[i].start,
                    end: scopes[i].end,
                },
            );
            proof {
                assert(closed_models(out@) =~= before.push(all[i as int]));
            }
        }
        i += 1;
    }
    out
}

// ---------------------------------------------------------------------------------------------
// Where a continuation starts
// ---------------------------------------------------------------------------------------------
/// The start of the innermost scope that is open where `owner` is first noted, from command `i` on.
/// `starts` are the scopes that are open at command `i`.
pub open spec fn owner_start(
    cs: Seq<CommandView>,
    i: int,
    starts: Seq<int>,
    owner: Seq<char>,
) -> Option<int>
    decreases cs.len() - i,
{
    if i >= cs.len() {
        None
    } else if note(cs[i], META_DIAGNOSTIC_SCOPE_BEGIN_KEY@) is Some {
        owner_start(cs, i + 1, starts.push(i), owner)
    } else if note(cs[i], META_OWNER_PATH_KEY@) == Some(owner) && starts.len() > 0 {
        Some(starts.last())
    } else if note(cs[i], META_OWNER_PATH_KEY@) != Some(owner) && note(
        cs[i],
        META_DIAGNOSTIC_SCOPE_END_KEY@,
    ) is Some && starts.len() > 0 {
        owner_start(cs, i + 1, starts.drop_last(), owner)
    } else {
        owner_start(cs, i + 1, starts, owner)
    }
}

spec fn int_starts(v: Seq<usize>) -> Seq<int> {
    Seq::new(v.len(), |i: int| v[i] as int)
}

fn diagnostic_owner_scope_start(list: &Vec<Command>, owner: &str) -> (r: Option<usize>)
    ensures
        match r {
            Some(at) => owner_start(models(list@), 0, Seq::empty(), owner@) == Some(at as int) && at
                < list@.len(),
            None => owner_start(models(list@), 0, Seq::empty(), owner@) is None,
        },
{
    let ghost all = models(list@);
    let mut starts: Vec<usize> = Vec::new();
    let mut i: usize = 0;
    proof {
        assert(int_starts(starts@) =~= Seq::empty());
    }
    while i < list.len()
        invariant
            i <= list@.len(),
            all == models(list@),
            forall|k: int| 0 <= k < starts@.len() ==> (#[trigger] starts@[k]) < i,
            owner_start(all, i as int, int_starts(starts@), owner@) == owner_start(
                all,
                0,
                Seq::empty(),
                owner@,
            ),
        decreases list@.len() - i,
    {
        let c = &list[i];
        let ghost before = int_starts(starts@);
        proof {
            assert(all[i as int] == c.model());
            assert(before.len() == starts@.len());
        }
        if note_of(c, META_DIAGNOSTIC_SCOPE_BEGIN_KEY).is_some() {
            starts.push(i);
            proof {
                assert(int_starts(starts@) =~= before.push(i as int));
            }
        } else {
            let owned = match note_of(c, META_OWNER_PATH_KEY) {
                Some(v) => same(v, owner),
                None => false,
            };
            if owned {
                if starts.len() > 0 {
                    return Some(starts[starts.len() - 1]);
                }
            } else if note_of(c, META_DIAGNOSTIC_SCOPE_END_KEY).is_some() {
                let popped = starts.pop();
                proof {
                    if popped is Some {
                        assert(int_starts(starts@) =~= before.drop_last());
                    }
                }
            }
        }
        i += 1;
    }
    None
}

// ---------------------------------------------------------------------------------------------
// Carrying paint to the next page
// ---------------------------------------------------------------------------------------------
/// A replay of what `source` painted below its area, clipped to the area of the next page.
pub open spec fn carry(
    replayed: Seq<CommandView>,
    source: Rect,
    destination: Rect,
) -> Seq<CommandView> {
    Seq::<CommandView>::empty().push(CommandView::SaveState).push(
        CommandView::ClipRect {
            x: destination.x,
            y: destination.y,
            width: destination.width,
            height: destination.height,
        },
    ).push(CommandView::BeginArtifact { subtype: None }).push(
        CommandView::ConcatMatrix {
            a: Ratio::one(),
            b: Ratio::zero(),
            c: Ratio::zero(),
            d: Ratio::one(),
            e: destination.x.minus(source.x),
            f: destination.y.minus(source.y).minus(source.height),
        },
    ) + replayed + seq![CommandView::EndMarkedContent, CommandView::RestoreState]
}

fn build_carry(replayed: Vec<Command>, source: Rect, destination: Rect) -> (out: Vec<Command>)
    ensures
        models(out@) == carry(models(replayed@), source, destination),
{
    let ghost inner = models(replayed@);
    let mut out: Vec<Command> = Vec::new();
    proof {
        assert(models(out@) =~= Seq::empty());
    }
    emit(&mut out, Command::SaveState);
    emit(
        &mut out,
        Command::ClipRect {
            x: destination.x,
            y: destination.y,
            width: destination.width,
            height: destination.height,
        },
    );
    emit(&mut out, Command::BeginArtifact { subtype: None });
    emit(
        &mut out,
        Command::ConcatMatrix {
            a: Ratio::one(),
            b: Ratio::zero(),
            c: Ratio::zero(),
            d: Ratio::one(),
            e: destination.x.minus(source.x),
            f: destination.y.minus(source.y).minus(source.height),
        },
    );
    emit_all(&mut out, replayed);
    let ghost before = models(out@);
    emit(&mut out, Command::EndMarkedContent);
    emit(&mut out, Command::RestoreState);
    proof {
        assert(models(out@) =~= before + seq![
            CommandView::EndMarkedContent,
            CommandView::RestoreState,
        ]);
    }
    out
}

/// The content with `more` put in before command `at`.
pub open spec fn inserted(cs: Seq<CommandView>, at: int, more: Seq<CommandView>) -> Seq<
    CommandView,
> {
    cs.take(at) + more + cs.skip(at)
}

/// The content of a page after the overflow of the first `n` scopes of the page before was put in
/// front of the continuations of their owners. A scope without continuation, or without paint, is
/// left out.
pub open spec fn carried(
    content: Seq<CommandView>,
    source: Seq<CommandView>,
    scopes: Seq<OverflowScope>,
    n: int,
    source_area: Rect,
    area: Rect,
) -> Seq<CommandView>
    decreases n,
{
    if n <= 0 {
        content
    } else {
        let before = carried(content, source, scopes, n - 1, source_area, area);
        let scope = scopes[n - 1];
        let paint = replay(source.subrange(scope.start, scope.end + 1));
        match owner_start(before, 0, Seq::empty(), scope.owner) {
            Some(at) => if paint.len() > 0 {
                inserted(before, at, carry(paint, source_area, area))
            } else {
                before
            },
            None => before,
        }
    }
}

fn carry_overflow(
    content: Vec<Command>,
    source: &Vec<Command>,
    source_fit: &HtmlPageFit,
    area: Rect,
) -> (out: Vec<Command>)
    ensures
        models(out@) == carried(
            models(content@),
            models(source@),
            overflow_scopes(models(source@), area_bottom(*source_fit)),
            overflow_scopes(models(source@), area_bottom(*source_fit)).len() as int,
            source_fit.page_area,
            area,
        ),
{
    let allowed: i64 = source_fit.page_area.y.plus(source_fit.page_area.height).milli;
    let scopes = html_block_end_overflow_scopes(source, allowed);
    let ghost views = overflow_scopes(models(source@), area_bottom(*source_fit));
    let ghost start = models(content@);
    let source_area = source_fit.page_area;
    let mut out = content;
    let mut i: usize = 0;
    while i < scopes.len()
        invariant
            i <= scopes@.len(),
            views == closed_models(scopes@),
            forall|k: int|
                0 <= k < scopes@.len() ==> (#[trigger] scopes@[k]).start < scopes@[k].end
                    < source@.len(),
            models(out@) == carried(
                start,
                models(source@),
                views,
                i as int,
                source_area,
                area,
            ),
        decreases scopes@.len() - i,
    {
        let scope = &scopes[i];
        let source_len: usize = source.len();
        proof {
            assert(views[i as int].owner == scope.owner@);
            assert(scopes@[i as int].start < scopes@[i as int].end < source@.len());
        }
        let painted = visual_replay_commands(&copy_range(source, scope.start, scope.end + 1));
        proof {
            assert(models(painted@).len() == painted@.len());
        }
        match diagnostic_owner_scope_start(&out, &scope.owner) {
            Some(at) => {
                if painted.len() > 0 {
                    let ghost before = models(out@);
                    let len: usize = out.len();
                    let mut next = copy_range(&out, 0, at);
                    let tail = copy_range(&out, at, len);
                    emit_all(&mut next, build_carry(painted, source_area, area));
                    emit_all(&mut next, tail);
                    proof {
                        assert(before.len() == len);
                        assert(before.subrange(0, at as int) =~= before.take(at as int));
                        assert(before.subrange(at as int, len as int) =~= before.skip(at as int));
                    }
                    out = next;
                }
            },
            None => {},
        }
        i += 1;
    }
    out
}

// ---------------------------------------------------------------------------------------------
// The fit of a document
// ---------------------------------------------------------------------------------------------
/// A whole number in the 64-bit range.
pub open spec fn narrowed(n: Option<int>) -> Option<i64> {
    match n {
        Some(k) => Some(k as i64),
        None => None,
    }
}

/// The fit of a page.
pub open spec fn fit_of(cs: Seq<CommandView>, default_size: Size) -> HtmlPageFit {
    HtmlPageFit {
        page_size: size_of_page(cs, default_size),
        page_area: area_of_page(cs, default_size),
        min_top: narrowed(smallest(notes(cs, META_HTML_SCROLLABLE_TOP_KEY@))),
        max_bottom: narrowed(largest(notes(cs, META_HTML_SCROLLABLE_BOTTOM_KEY@))),
        local_scale: local_scale(cs, default_size),
        content_start: content_from(cs, 0) as usize,
    }
}

/// The fits of all pages.
pub open spec fn fits_of(d: DocumentView) -> Seq<HtmlPageFit> {
    Seq::new(d.pages.len(), |i: int| fit_of(d.pages[i], d.page_size))
}

/// The smallest proportion among the first `n` pages, one at most.
pub open spec fn least_scale(fits: Seq<HtmlPageFit>, n: int) -> Ratio
    decreases n,
{
    if n <= 0 {
        Ratio::one()
    } else {
        let before = least_scale(fits, n - 1);
        if fits[n - 1].local_scale.is_below(before) {
            fits[n - 1].local_scale
        } else {
            before
        }
    }
}

/// Whether a proportion is below one in single precision, where one and its lower neighbour are
/// one part in 16777216 apart and the point between them counts as one.
pub open spec fn shrinks(r: Ratio) -> bool {
    (r.den - r.num) * 33_554_432 > r.den
}

/// The proportion that the whole document takes.
pub open spec fn document_scale(fits: Seq<HtmlPageFit>) -> Ratio {
    let least = least_scale(fits, fits.len() as int);
    if shrinks(least) {
        least
    } else {
        Ratio::one()
    }
}

/// The content of a page is wider than its area.
pub open spec fn is_scaled(fits: Seq<HtmlPageFit>) -> bool {
    shrinks(least_scale(fits, fits.len() as int))
}

/// A page other than the first paints above its area.
pub open spec fn some_top_overflow(fits: Seq<HtmlPageFit>) -> bool {
    exists|i: int| 1 <= i < fits.len() && overflows_top(#[trigger] fits[i])
}

/// A page other than the last paints below its area.
pub open spec fn some_bottom_overflow(fits: Seq<HtmlPageFit>) -> bool {
    exists|i: int| 0 <= i < fits.len() - 1 && overflows_bottom(#[trigger] fits[i])
}

/// The commands of page `p`, with the root background a quarter point higher where the document is
/// scaled.
pub open spec fn prepared(d: DocumentView, fits: Seq<HtmlPageFit>, p: int) -> Seq<CommandView> {
    if is_scaled(fits) {
        extended_background(d.pages[p], pt(250))
    } else {
        d.pages[p]
    }
}

/// What page `p` holds behind its template.
pub open spec fn content_of(d: DocumentView, fits: Seq<HtmlPageFit>, p: int) -> Seq<CommandView> {
    prepared(d, fits, p).skip(fits[p].content_start as int)
}

/// The content of page `p` with the overflow of the page before.
pub open spec fn content_with_carry(d: DocumentView, fits: Seq<HtmlPageFit>, p: int) -> Seq<
    CommandView,
> {
    if p > 0 && overflows_bottom(fits[p - 1]) {
        let source = content_of(d, fits, p - 1);
        let scopes = overflow_scopes(source, area_bottom(fits[p - 1]));
        carried(
            content_of(d, fits, p),
            source,
            scopes,
            scopes.len() as int,
            fits[p - 1].page_area,
            fits[p].page_area,
        )
    } else {
        content_of(d, fits, p)
    }
}

/// How far the clip stays below the upper edge of a page area.
pub open spec fn clip_guard(area: Rect) -> Pt {
    if area.y.milli > 0 && area.height.milli > 1 {
        pt(1)
    } else {
        pt(0)
    }
}

/// Content scaled about the upper left corner of its page area.
pub open spec fn fitted(content: Seq<CommandView>, area: Rect, scale: Ratio) -> Seq<CommandView> {
    Seq::<CommandView>::empty().push(CommandView::SaveState).push(
        CommandView::ClipRect {
            x: area.x,
            y: area.y.plus(clip_guard(area)),
            width: area.width,
            height: area.height.minus(clip_guard(area)),
        },
    ).push(CommandView::CssTransformOrigin { x: area.x, y: area.y, inverse: false }).push(
        CommandView::Scale(scale, scale),
    ).push(CommandView::CssTransformOrigin { x: area.x, y: area.y, inverse: true }) + content
        + seq![CommandView::RestoreState]
}

/// The part of page `source` that reaches over its upper edge, replayed at the foot of the page
/// before. `paint` is what `source` paints.
pub open spec fn foot_artifact(
    paint: Seq<CommandView>,
    source: HtmlPageFit,
    destination: HtmlPageFit,
    scale: Ratio,
    number_of_source: nat,
) -> Seq<CommandView> {
    let area = destination.page_area;
    let x = area.x.minus(source.page_area.x.scaled(scale));
    let y = area.y.plus(area.height).minus(source.page_area.y.scaled(scale)).plus(pt(250));
    let open = Seq::<CommandView>::empty().push(CommandView::SaveState).push(
        CommandView::ClipRect { x: area.x, y: area.y, width: area.width, height: area.height },
    ).push(CommandView::BeginArtifact { subtype: None });
    let id = "html-fragment-overflow:"@ + decimal(number_of_source);
    let body = if source.page_size == destination.page_size {
        open.push(
            CommandView::ConcatMatrix {
                a: scale,
                b: Ratio::zero(),
                c: Ratio::zero(),
                d: scale,
                e: x,
                f: y.plus(source.page_size.height.scaled(scale)).minus(
                    destination.page_size.height,
                ),
            },
        ) + paint
    } else {
        open.push(
            CommandView::DefineIsolatedForm {
                resource_id: id,
                width: source.page_size.width,
                height: source.page_size.height,
                commands: paint,
            },
        ).push(
            CommandView::DrawForm {
                x,
                y,
                width: source.page_size.width.scaled(scale),
                height: source.page_size.height.scaled(scale),
                resource_id: id,
            },
        )
    };
    body.push(CommandView::EndMarkedContent).push(CommandView::RestoreState)
}

/// What page `p` shows of the page after it.
pub open spec fn foot_of(d: DocumentView, fits: Seq<HtmlPageFit>, p: int) -> Seq<CommandView> {
    if p + 1 < fits.len() && overflows_top(fits[p + 1]) && replay(
        content_of(d, fits, p + 1),
    ).len() > 0 {
        foot_artifact(
            replay(content_of(d, fits, p + 1)),
            fits[p + 1],
            fits[p],
            document_scale(fits),
            (p + 2) as nat,
        )
    } else {
        Seq::empty()
    }
}

/// Page `p` after the fit: its template, its content, and what it shows of the page after it.
pub open spec fn fitted_page(d: DocumentView, fits: Seq<HtmlPageFit>, p: int) -> Seq<CommandView> {
    let content = content_with_carry(d, fits, p);
    let body = if is_scaled(fits) {
        fitted(content, fits[p].page_area, document_scale(fits))
    } else {
        content
    };
    prepared(d, fits, p).take(fits[p].content_start as int) + body + foot_of(d, fits, p)
}

/// The document after the fit. Nothing changes where all paint stays inside its page area.
pub open spec fn shrunk(d: DocumentView) -> DocumentView {
    let fits = fits_of(d);
    if is_scaled(fits) || some_top_overflow(fits) || some_bottom_overflow(fits) {
        DocumentView {
            page_size: d.page_size,
            pages: Seq::new(d.pages.len(), |p: int| fitted_page(d, fits, p)),
        }
    } else {
        d
    }
}

fn all_fits(doc: &Document) -> (fits: Vec<HtmlPageFit>)
    ensures
        fits@ == fits_of(doc@),
        forall|i: int|
            0 <= i < fits@.len() ==> (#[trigger] fits@[i]).local_scale.is_proper()
                && fits@[i].content_start <= doc.pages@[i].commands@.len(),
{
    let mut fits: Vec<HtmlPageFit> = Vec::new();
    let mut i: usize = 0;
    while i < doc.pages.len()
        invariant
            i <= doc.pages@.len(),
            fits@.len() == i,
            forall|k: int|
                0 <= k < i ==> (#[trigger] fits@[k]) == fits_of(doc@)[k]
                    && fits@[k].local_scale.is_proper() && fits@[k].content_start
                    <= doc.pages@[k].commands@.len(),
        decreases doc.pages@.len() - i,
    {
        let f = fit_page(&doc.pages[i].commands, doc.page_size);
        proof {
            assert(doc@.pages[i as int] == models(doc.pages@[i as int].commands@));
            assert(f == fit_of(doc@.pages[i as int], doc@.page_size));
        }
        fits.push(f);
        i += 1;
    }
    proof {
        assert(fits@ =~= fits_of(doc@));
    }
    fits
}

fn least_of(fits: &Vec<HtmlPageFit>) -> (r: Ratio)
    requires
        forall|i: int| 0 <= i < fits@.len() ==> (#[trigger] fits@[i]).local_scale.is_proper(),
    ensures
        r == least_scale(fits@, fits@.len() as int),
        r.is_proper(),
{
    let mut r = Ratio::one();
    let mut i: usize = 0;
    while i < fits.len()
        invariant
            i <= fits@.len(),
            forall|k: int| 0 <= k < fits@.len() ==> (#[trigger] fits@[k]).local_scale.is_proper(),
            r == least_scale(fits@, i as int),
            r.is_proper(),
        decreases fits@.len() - i,
    {
        proof {
            assert(fits@[i as int].local_scale.is_proper());
        }
        if fits[i].local_scale.below(&r) {
            r = fits[i].local_scale;
        }
        i += 1;
    }
    r
}

fn top_overflow(f: &HtmlPageFit) -> (r: bool)
    ensures
        r == overflows_top(*f),
{
    match f.min_top {
        Some(t) => t < f.page_area.y.milli,
        None => false,
    }
}

fn bottom_overflow(f: &HtmlPageFit) -> (r: bool)
    ensures
        r == overflows_bottom(*f),
{
    match f.max_bottom {
        Some(b) => b > f.page_area.y.plus(f.page_area.height).milli,
        None => false,
    }
}

fn any_overflow(fits: &Vec<HtmlPageFit>) -> (r: bool)
    ensures
        r == (some_top_overflow(fits@) || some_bottom_overflow(fits@)),
{
    let n: usize = fits.len();
    let mut i: usize = 0;
    while i < n
        invariant
            i <= n == fits@.len(),
            forall|k: int| 1 <= k < i ==> !overflows_top(#[trigger] fits@[k]),
            forall|k: int| 0 <= k < i && k < n - 1 ==> !overflows_bottom(#[trigger] fits@[k]),
        decreases n - i,
    {
        if i > 0 && top_overflow(&fits[i]) {
            return true;
        }
        if i < n - 1 && bottom_overflow(&fits[i]) {
            return true;
        }
        i += 1;
    }
    false
}

fn build_fitted(content: Vec<Command>, area: Rect, scale: Ratio) -> (out: Vec<Command>)
    ensures
        models(out@) == fitted(models(content@), area, scale),
{
    let guard = if area.y.milli > 0 && area.height.milli > 1 {
        Pt { milli: 1 }
    } else {
        Pt::zero()
    };
    let mut out: Vec<Command> = Vec::new();
    proof {
        assert(models(out@) =~= Seq::empty());
    }
    emit(&mut out, Command::SaveState);
    emit(
        &mut out,
        Command::ClipRect {
            x: area.x,
            y: area.y.plus(guard),
            width: area.width,
            height: area.height.minus(guard),
        },
    );
    emit(&mut out, Command::CssTransformOrigin { x: area.x, y: area.y, inverse: false });
    emit(&mut out, Command::Scale(scale, scale));
    emit(&mut out, Command::CssTransformOrigin { x: area.x, y: area.y, inverse: true });
    emit_all(&mut out, content);
    let ghost before = models(out@);
    emit(&mut out, Command::RestoreState);
    proof {
        assert(before.push(CommandView::RestoreState) =~= before + seq![CommandView::RestoreState]);
    }
    out
}

fn build_foot(
    paint: Vec<Command>,
    source: &HtmlPageFit,
    destination: &HtmlPageFit,
    scale: Ratio,
    number_of_source: usize,
) -> (out: Vec<Command>)
    requires
        scale.is_proper(),
    ensures
        models(out@) == foot_artifact(
            models(paint@),
            *source,
            *destination,
            scale,
            number_of_source as nat,
        ),
{
    let area = destination.page_area;
    let x = area.x.minus(source.page_area.x.scaled(scale));
    let y = area.y.plus(area.height).minus(source.page_area.y.scaled(scale)).plus(
        Pt { milli: 250 },
    );
    let mut out: Vec<Command> = Vec::new();
    proof {
        assert(models(out@) =~= Seq::empty());
    }
    emit(&mut out, Command::SaveState);
    emit(
        &mut out,
        Command::ClipRect { x: area.x, y: area.y, width: area.width, height: area.height },
    );
    emit(&mut out, Command::BeginArtifact { subtype: None });
    if source.page_size == destination.page_size {
        emit(
            &mut out,
            Command::ConcatMatrix {
                a: scale,
                b: Ratio::zero(),
                c: Ratio::zero(),
                d: scale,
                e: x,
                f: y.plus(source.page_size.height.scaled(scale)).minus(
                    destination.page_size.height,
                ),
            },
        );
        emit_all(&mut out, paint);
    } else {
        let id = concat("html-fragment-overflow:", &count_text(number_of_source));
        let form = Command::DefineIsolatedForm {
            resource_id: id.clone(),
            width: source.page_size.width,
            height: source.page_size.height,
            commands: paint,
        };
        proof {
            model_of_form(form);
        }
        emit(&mut out, form);
        emit(
            &mut out,
            Command::DrawForm {
                x,
                y,
                width: source.page_size.width.scaled(scale),
                height: source.page_size.height.scaled(scale),
                resource_id: id,
            },
        );
    }
    emit(&mut out, Command::EndMarkedContent);
    emit(&mut out, Command::RestoreState);
    out
}

fn prepare(doc: &Document, p: usize, scaled: bool, Ghost(fits): Ghost<Seq<HtmlPageFit>>) -> (out: Vec<
    Command,
>)
    requires
        p < doc.pages@.len(),
        scaled == is_scaled(fits),
    ensures
        models(out@) == prepared(doc@, fits, p as int),
        out@.len() == doc.pages@[p as int].commands@.len(),
{
    proof {
        assert(doc@.pages[p as int] == models(doc.pages@[p as int].commands@));
    }
    let out = if scaled {
        extend_html_canvas_background_block_end(&doc.pages[p].commands, Pt { milli: 250 })
    } else {
        copy_commands(&doc.pages[p].commands)
    };
    proof {
        assert(models(out@).len() == out@.len());
        assert(prepared(doc@, fits, p as int).len() == doc@.pages[p as int].len());
    }
    out
}

fn content_at(doc: &Document, fits: &Vec<HtmlPageFit>, p: usize, scaled: bool) -> (out: Vec<Command>)
    requires
        p < doc.pages@.len(),
        fits@.len() == doc.pages@.len(),
        scaled == is_scaled(fits@),
        fits@[p as int].content_start <= doc.pages@[p as int].commands@.len(),
    ensures
        models(out@) == content_of(doc@, fits@, p as int),
{
    let page = prepare(doc, p, scaled, Ghost(fits@));
    let len: usize = page.len();
    let out = copy_range(&page, fits[p].content_start, len);
    proof {
        let all = models(page@);
        let a = fits@[p as int].content_start as int;
        assert(all.len() == len);
        assert(all.subrange(a, len as int) =~= all.skip(a));
    }
    out
}

fn fit_one(doc: &Document, fits: &Vec<HtmlPageFit>, p: usize, scaled: bool, scale: Ratio) -> (out: Vec<
    Command,
>)
    requires
        p < doc.pages@.len(),
        fits@.len() == doc.pages@.len(),
        scaled == is_scaled(fits@),
        scale == document_scale(fits@),
        scale.is_proper(),
        forall|i: int|
            0 <= i < fits@.len() ==> (#[trigger] fits@[i]).content_start
                <= doc.pages@[i].commands@.len(),
    ensures
        models(out@) == fitted_page(doc@, fits@, p as int),
{
    proof {
        assert(fits@[p as int].content_start <= doc.pages@[p as int].commands@.len());
    }
    let page = prepare(doc, p, scaled, Ghost(fits@));
    let own = content_at(doc, fits, p, scaled);
    let content = if p > 0 && bottom_overflow(&fits[p - 1]) {
        proof {
            assert(fits@[p - 1].content_start <= doc.pages@[p - 1].commands@.len());
        }
        let source = content_at(doc, fits, p - 1, scaled);
        carry_overflow(own, &source, &fits[p - 1], fits[p].page_area)
    } else {
        own
    };
    let mut out = copy_range(&page, 0, fits[p].content_start);
    proof {
        let all = models(page@);
        let a = fits@[p as int].content_start as int;
        assert(all.subrange(0, a) =~= all.take(a));
    }
    if scaled {
        emit_all(&mut out, build_fitted(content, fits[p].page_area, scale));
    } else {
        emit_all(&mut out, content);
    }
    let ghost before = models(out@);
    let n: usize = fits.len();
    if n - p > 1 && top_overflow(&fits[p + 1]) {
        proof {
            assert(fits@[p + 1].content_start <= doc.pages@[p + 1].commands@.len());
        }
        let below = content_at(doc, fits, p + 1, scaled);
        let paint = visual_replay_commands(&below);
        proof {
            assert(models(paint@).len() == paint@.len());
            assert(before + Seq::<CommandView>::empty() =~= before);
        }
        if paint.len() > 0 {
            emit_all(&mut out, build_foot(paint, &fits[p + 1], &fits[p], scale, p + 2));
        }
    } else {
        proof {
            assert(before + Seq::<CommandView>::empty() =~= before);
        }
    }
    out
}

/// Fits a document to its page areas.
pub fn apply_html_page_shrink_to_fit(doc: &mut Document)
    requires
        old(doc).pages@.len() < usize::MAX,
    ensures
        final(doc)@ == shrunk(old(doc)@),
{
    let fits = all_fits(doc);
    let least = least_of(&fits);
    let gap: i128 = (least.den as i128 - least.num as i128) * 33_554_432;
    let scaled = gap > least.den as i128;
    if !scaled && !any_overflow(&fits) {
        return;
    }
    let scale = if scaled {
        least
    } else {
        Ratio::one()
    };
    let mut pages: Vec<Page> = Vec::new();
    let n: usize = doc.pages.len();
    let mut p: usize = 0;
    while p < n
        invariant
            p <= n == doc.pages@.len(),
            n < usize::MAX,
            fits@ == fits_of(doc@),
            fits@.len() == n,
            scaled == is_scaled(fits@),
            scale == document_scale(fits@),
            scale.is_proper(),
            forall|i: int|
                0 <= i < fits@.len() ==> (#[trigger] fits@[i]).content_start
                    <= doc.pages@[i].commands@.len(),
            pages@.len() == p,
            forall|k: int|
                0 <= k < p ==> models((#[trigger] pages@[k]).commands@) == fitted_page(
                    doc@,
                    fits@,
                    k,
                ),
        decreases n - p,
    {
        let commands = fit_one(doc, &fits, p, scaled, scale);
        pages.push(Page { commands });
        p += 1;
    }
    let ghost before = doc@;
    doc.pages = pages;
    proof {
        assert(doc@.pages =~= shrunk(before).pages);
    }
}

/// A document whose paint stays inside its page areas is left as it is.
pub proof fn fit_leaves_fitting_documents(d: DocumentView)
    requires
        forall|i: int| 0 <= i < fits_of(d).len() ==> (#[trigger] fits_of(d)[i]).local_scale
            == Ratio::one(),
        !some_top_overflow(fits_of(d)),
        !some_bottom_overflow(fits_of(d)),
    ensures
        shrunk(d) == d,
{
    least_scale_of_ones(fits_of(d), fits_of(d).len() as int);
}

proof fn least_scale_of_ones(fits: Seq<HtmlPageFit>, n: int)
    requires
        0 <= n <= fits.len(),
        forall|i: int| 0 <= i < fits.len() ==> (#[trigger] fits[i]).local_scale == Ratio::one(),
    ensures
        least_scale(fits, n) == Ratio::one(),
    decreases n,
{
    if n > 0 {
        least_scale_of_ones(fits, n - 1);
        assert(fits[n - 1].local_scale == Ratio::one());
    }
}

/// The paint of a page's template stays where it is, at the start of the page, even where the
/// document is scaled. Only rectangles of the root background can change, and a template has none.
pub proof fn fit_keeps_templates(d: DocumentView, p: int)
    requires
        0 <= p < d.pages.len(),
        0 <= content_from(d.pages[p], 0) <= d.pages[p].len(),
        content_from(d.pages[p], 0) <= usize::MAX,
        is_scaled(fits_of(d)) ==> forall|k: int|
            0 <= k < content_from(d.pages[p], 0) && background_depth(d.pages[p], k) > 0
                ==> heightened(#[trigger] d.pages[p][k], pt(250)) == d.pages[p][k],
    ensures
        shrunk(d).pages.len() == d.pages.len(),
        d.pages[p].take(content_from(d.pages[p], 0)).is_prefix_of(shrunk(d).pages[p]),
{
    let fits = fits_of(d);
    let n = content_from(d.pages[p], 0);
    let head = d.pages[p].take(n);
    assert(fits[p].content_start == n);
    assert(prepared(d, fits, p).take(n) =~= head) by {
        assert forall|k: int| 0 <= k < n implies prepared(d, fits, p)[k] == d.pages[p][k] by {
            if is_scaled(fits) && background_depth(d.pages[p], k) > 0 {
                assert(heightened(d.pages[p][k], pt(250)) == d.pages[p][k]);
            }
        }
    }
    assert(head.is_prefix_of(fitted_page(d, fits, p)));
    assert(head.is_prefix_of(d.pages[p]));
}

/// One proportion holds for all pages, and no page asks for a smaller one.
pub proof fn document_scale_is_least(fits: Seq<HtmlPageFit>, n: int)
    requires
        0 <= n <= fits.len(),
        forall|i: int| 0 <= i < fits.len() ==> (#[trigger] fits[i]).local_scale.is_proper(),
    ensures
        least_scale(fits, n).is_proper(),
        forall|i: int|
            0 <= i < n ==> !(#[trigger] fits[i]).local_scale.is_below(least_scale(fits, n)),
    decreases n,
{
    if n > 0 {
        document_scale_is_least(fits, n - 1);
        let before = least_scale(fits, n - 1);
        let here = fits[n - 1].local_scale;
        assert(fits[n - 1].local_scale.is_proper());
        if here.is_below(before) {
            assert forall|i: int| 0 <= i < n implies !(#[trigger] fits[i]).local_scale.is_below(
                least_scale(fits, n),
            ) by {
                if i < n - 1 {
                    let a = fits[i].local_scale;
                    assert(!a.is_below(before));
                    assert(a.is_proper());
                    below_is_transitive(a, here, before);
                }
            }
        }
    }
}

proof fn below_is_transitive(a: Ratio, b: Ratio, c: Ratio)
    requires
        a.is_proper(),
        b.is_proper(),
        c.is_proper(),
        b.is_below(c),
        !a.is_below(c),
    ensures
        !a.is_below(b),
{
    if a.is_below(b) {
        assert(a.num * c.den < c.num * a.den) by (nonlinear_arith)
            requires
                a.num * b.den < b.num * a.den,
                b.num * c.den < c.num * b.den,
                a.den > 0,
                b.den > 0,
                c.den > 0,
        ;
    }
}

} // verus!
