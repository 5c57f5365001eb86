//! Where the layers of a page stand: joined documents, overlays, running texts and watermarks.
use vstd::prelude::*;

use crate::command::{models, CommandView, Document, DocumentView};
use crate::documents::{
    first_page, joined_pages, joins, overlaid, page_total, same_page_size, underlaid,
    FullBleedError,
};
use crate::engine::layered;
use crate::geometry::{pt, Pt, Real, Size};
use crate::graphics::{graphics_from, in_force, saved_at};
use crate::overlay::{
    are_footer_texts, are_header_texts, drawn_texts, footer_template, footer_y, gives, header_form,
    header_template, with_footer, with_header, with_texts, PageFooterSpec, PageHeaderHtmlSpec,
    PageHeaderSpec, RenderedSnippet, WatermarkSemantics, WatermarkSpec,
};
use crate::shrink::notes;
use crate::watermark::{
    image_size, is_over, overlay_page, turns, watermark, OverlayParts, WatermarkContent,
};

verus! {

broadcast use vstd::string::group_string_axioms;

// ---------------------------------------------------------------------------------------------
// Joined documents
// ---------------------------------------------------------------------------------------------
/// Every page of every document stands in the joined one, behind all pages of the documents before
/// it and in its own order.
pub proof fn joined_pages_keep_their_places(docs: Seq<Document>, n: int, k: int, p: int)
    requires
        0 <= k < n <= docs.len(),
        0 <= p < docs[k].pages@.len(),
    ensures
        0 <= page_total(docs, k) + p < joined_pages(docs, n).len(),
        joined_pages(docs, n)[page_total(docs, k) + p] == docs[k]@.pages[p],
        joined_pages(docs, n).len() == page_total(docs, n),
    decreases n,
{
    crate::documents::merged_page_count(docs, n);
    crate::documents::merged_page_count(docs, n - 1);
    if k < n - 1 {
        joined_pages_keep_their_places(docs, n - 1, k, p);
    }
}

/// Two documents with different page sizes are refused, whatever stands between them.
pub proof fn different_sizes_are_refused(
    docs: Seq<Document>,
    r: Result<Document, FullBleedError>,
    i: int,
    j: int,
)
    requires
        joins(docs, r),
        0 <= i < docs.len(),
        0 <= j < docs.len(),
        docs[i].page_size != docs[j].page_size,
    ensures
        r == Err::<Document, FullBleedError>(FullBleedError::InconsistentPageSize),
{
    if same_page_size(docs) {
        assert(docs[i].page_size == docs[0].page_size);
        assert(docs[j].page_size == docs[0].page_size);
    }
}

/// An element is found on the first page that notes it, and pages count from one.
pub proof fn targets_are_on_their_first_page(d: DocumentView, id: Seq<char>, from: int)
    requires
        0 <= from <= d.pages.len(),
    ensures
        match first_page(d, id, from) {
            Some(n) => {
                &&& from + 1 <= n <= d.pages.len()
                &&& notes(d.pages[n - 1], "fb.owner.id"@).contains(id)
                &&& forall|p: int|
                    from <= p < n - 1 ==> !notes(#[trigger] d.pages[p], "fb.owner.id"@).contains(id)
            },
            None => forall|p: int|
                from <= p < d.pages.len() ==> !notes(
                    #[trigger] d.pages[p],
                    "fb.owner.id"@,
                ).contains(id),
        },
    decreases d.pages.len() - from,
{
    if from < d.pages.len() && !notes(d.pages[from], "fb.owner.id"@).contains(id) {
        targets_are_on_their_first_page(d, id, from + 1);
    }
}

// ---------------------------------------------------------------------------------------------
// Over and under
// ---------------------------------------------------------------------------------------------
/// On every page of a finished document the background is painted first, then the page, then the
/// overlay. A layer with another number of pages than the document is left out.
pub proof fn layers_are_painted_in_order(
    base: DocumentView,
    under: DocumentView,
    over: DocumentView,
    p: int,
    i: int,
)
    requires
        0 <= p < base.pages.len(),
    ensures
        ({
            let n = base.pages.len();
            let both = layered(base, Some(under), Some(over));
            let below = if under.pages.len() == n {
                under.pages[p].len() as int
            } else {
                0
            };
            let own = base.pages[p].len() as int;
            let above = if over.pages.len() == n {
                over.pages[p].len() as int
            } else {
                0
            };
            &&& both.page_size == base.page_size
            &&& both.pages.len() == n
            &&& both.pages[p].len() == below + own + above
            &&& 0 <= i < below ==> both.pages[p][i] == under.pages[p][i]
            &&& 0 <= i < own ==> both.pages[p][below + i] == base.pages[p][i]
            &&& 0 <= i < above ==> both.pages[p][below + own + i] == over.pages[p][i]
        }),
        layered(base, None, None) == base,
        layered(base, Some(under), None) == underlaid(base, under),
        layered(base, None, Some(over)) == overlaid(base, over),
        0 <= i < base.pages[p].len() ==> overlaid(base, over).pages[p][i] == base.pages[p][i],
        under.pages.len() == base.pages.len() && 0 <= i < under.pages[p].len() ==> underlaid(
            base,
            under,
        ).pages[p][i] == under.pages[p][i],
{
}

// ---------------------------------------------------------------------------------------------
// Running texts
// ---------------------------------------------------------------------------------------------
/// Which header a page takes: a header for the first page stands on page one, whatever else there
/// is; one for the last page stands on the last of several pages; the running one stands on no first
/// page, and on all others that have none of their own.
pub proof fn headers_keep_to_their_pages(
    first: Option<String>,
    each: Option<String>,
    last: Option<String>,
    page: int,
    total: int,
)
    requires
        1 <= page <= total,
    ensures
        ({
            let h = header_template(first, each, last, page, total);
            &&& page == 1 && first is Some ==> h == first
            &&& page == 1 && first is None && total > 1 ==> h is None
            &&& total == 1 && first is None ==> h == last
            &&& page == total && page > 1 && last is Some ==> h == last
            &&& page > 1 && (page < total || last is None) ==> h == each
        }),
{
}

/// Which footer a page takes: the last page takes the one for the last page, the first of several
/// pages the one for the first, and every page that has none of its own the running one. A single
/// page is a last page before it is a first one.
pub proof fn footers_keep_to_their_pages(
    first: Option<String>,
    each: Option<String>,
    last: Option<String>,
    page: int,
    total: int,
)
    requires
        1 <= page <= total,
    ensures
        ({
            let f = footer_template(first, each, last, page, total);
            &&& page == total && last is Some ==> f == last
            &&& page == 1 && first is Some && (total > 1 || last is None) ==> f == first
            &&& 1 < page < total ==> f == each
            &&& page == 1 && first is None && (total > 1 || last is None) ==> f == each
            &&& page == total && page > 1 && last is None ==> f == each
        }),
{
}

/// The text is drawn behind the page, at this place, in this font and this colour.
pub open spec fn writes_line(
    page: Seq<CommandView>,
    now: Seq<CommandView>,
    x: Pt,
    y: Pt,
    text: Seq<char>,
) -> bool {
    &&& page.is_prefix_of(now)
    &&& now.len() > page.len()
    &&& now.last() == (CommandView::DrawString { x, y, text })
    &&& forall|i: int| page.len() <= i < now.len() - 1 ==> !(#[trigger] now[i] is DrawString)
}

/// A setting is made behind the page.
pub open spec fn sets(page: Seq<CommandView>, now: Seq<CommandView>, c: CommandView) -> bool {
    exists|i: int| page.len() <= i < now.len() - 1 && #[trigger] now[i] == c
}

/// A header is written behind what the page holds, as far from the upper edge as asked for, in its
/// font and colour. A page without a header stays as it is.
pub proof fn headers_are_written_last(
    page: Seq<CommandView>,
    spec: PageHeaderSpec,
    text: Seq<char>,
)
    ensures
        with_header(page, spec, None) == page,
        writes_line(page, with_header(page, spec, Some(text)), spec.x, spec.y_from_top, text),
        sets(page, with_header(page, spec, Some(text)), CommandView::SetFillColor(spec.color)),
        sets(page, with_header(page, spec, Some(text)), CommandView::SetFontName(spec.font_name@)),
        sets(page, with_header(page, spec, Some(text)), CommandView::SetFontSize(spec.font_size)),
{
    let now = with_header(page, spec, Some(text));
    let n = page.len() as int;
    assert(now[n] == CommandView::SetFillColor(spec.color));
    assert(now[n + 1] == CommandView::SetFontName(spec.font_name@));
    assert(now[n + 2] == CommandView::SetFontSize(spec.font_size));
}

/// A footer is written behind what the page holds. Its lower edge stands as far from the foot of the
/// page as asked for, and it never starts above the page.
pub proof fn footers_stand_above_the_foot(
    page: Seq<CommandView>,
    size: Size,
    spec: PageFooterSpec,
    text: Seq<char>,
)
    requires
        -0x2000_0000_0000_0000 <= size.height.milli <= 0x2000_0000_0000_0000,
        -0x2000_0000_0000_0000 <= spec.y_from_bottom.milli <= 0x2000_0000_0000_0000,
        -0x2000_0000_0000_0000 <= spec.font_size.milli <= 0x2000_0000_0000_0000,
    ensures
        with_footer(page, size, spec, None) == page,
        ({
            let y = footer_y(size, spec);
            let now = with_footer(page, size, spec, Some(text));
            let low = spec.y_from_bottom.milli + spec.font_size.milli;
            &&& y.milli >= 0
            &&& low <= size.height.milli ==> y.milli + low == size.height.milli
            &&& low > size.height.milli ==> y.milli == 0
            &&& writes_line(page, now, spec.x, y, text)
            &&& sets(page, now, CommandView::SetFillColor(spec.color))
            &&& sets(page, now, CommandView::SetFontName(spec.font_name@))
            &&& sets(page, now, CommandView::SetFontSize(spec.font_size))
        }),
{
    let now = with_footer(page, size, spec, Some(text));
    let n = page.len() as int;
    assert(now[n] == CommandView::SetFillColor(spec.color));
    assert(now[n + 1] == CommandView::SetFontName(spec.font_name@));
    assert(now[n + 2] == CommandView::SetFontSize(spec.font_size));
}

/// A header form is defined and then drawn once, with its upper left corner where it was asked for
/// and clipped to its extent; what follows it stands under what stood before it.
pub proof fn header_forms_stand_at_their_place(spec: PageHeaderHtmlSpec, s: RenderedSnippet)
    ensures
        ({
            let cs = header_form(spec, s);
            exists|i: int, k: int|
                {
                    &&& 0 <= i < k < cs.len()
                    &&& #[trigger] cs[i] == (CommandView::DefineForm {
                        resource_id: s.form_id@,
                        width: spec.width,
                        height: spec.height,
                        commands: models(s.commands@),
                    })
                    &&& #[trigger] cs[k] == (CommandView::DrawForm {
                        x: pt(0),
                        y: pt(0),
                        width: spec.width,
                        height: spec.height,
                        resource_id: s.form_id@,
                    })
                    &&& in_force(cs, k) == seq![
                        CommandView::Translate(spec.x, spec.y_from_top),
                        CommandView::ClipRect {
                            x: pt(0),
                            y: pt(0),
                            width: spec.width,
                            height: spec.height,
                        },
                    ]
                }
        }),
        in_force(header_form(spec, s), header_form(spec, s).len() as int) == Seq::<
            CommandView,
        >::empty(),
        saved_at(header_form(spec, s), header_form(spec, s).len() as int) == 0,
{
    let cs = header_form(spec, s);
    reveal_with_fuel(graphics_from, 7);
    assert(cs[0] is DefineForm && cs[4] is DrawForm);
    assert(in_force(cs, 4) =~= seq![
        CommandView::Translate(spec.x, spec.y_from_top),
        CommandView::ClipRect { x: pt(0), y: pt(0), width: spec.width, height: spec.height },
    ]);
    assert(in_force(cs, 6) =~= Seq::empty());
}

/// The overlay of a page draws the watermark first and the footer last, and a header of HTML takes
/// the place of a header line.
pub proof fn overlays_are_drawn_in_order(base: DocumentView, parts: OverlayParts, p: int)
    ensures
        parts.watermark matches Some(w) && is_over(base, w) && 0 <= p < w.contents@.len()
            ==> watermark(
            (parts.watermark->0).spec,
            base.page_size,
            (parts.watermark->0).angle,
            (parts.watermark->0).contents@[p],
        ).is_prefix_of(overlay_page(base, parts, p)),
        parts.footer matches Some(f) && f.1@[p] is Some ==> overlay_page(base, parts, p).len() > 0
            && overlay_page(base, parts, p).last() == (CommandView::DrawString {
            x: (parts.footer->0).0.x,
            y: footer_y(base.page_size, (parts.footer->0).0),
            text: ((parts.footer->0).1@[p]->0)@,
        }),
        parts.header_html is Some ==> overlay_page(base, parts, p) == overlay_page(
            base,
            (OverlayParts { header: None, ..parts }),
            p,
        ),
        parts.footer is None && parts.header_html is None ==> (parts.header matches Some(h)
            && h.1@[p] is Some ==> overlay_page(base, parts, p).last() == (CommandView::DrawString {
            x: (parts.header->0).0.x,
            y: (parts.header->0).0.y_from_top,
            text: ((parts.header->0).1@[p]->0)@,
        })),
{
}

// ---------------------------------------------------------------------------------------------
// Texts inside commands
// ---------------------------------------------------------------------------------------------
/// Commands whose texts are replaced draw the new texts, in the order of the old ones. Nothing else
/// changes: there are as many commands, and each that is neither a text nor a form is as it was.
pub proof fn replaced_texts_are_drawn(cs: Seq<CommandView>, new: Seq<Seq<char>>)
    requires
        new.len() == drawn_texts(cs).len(),
    ensures
        drawn_texts(with_texts(cs, new)) == new,
        with_texts(cs, new).len() == cs.len(),
        forall|i: int|
            0 <= i < cs.len() && !(cs[i] is DrawString) && !(cs[i] is DefineForm)
                && !(cs[i] is DefineIsolatedForm) ==> #[trigger] with_texts(cs, new)[i] == cs[i],
        forall|i: int|
            0 <= i < cs.len() && cs[i] is DrawString ==> match (
                cs[i],
                #[trigger] with_texts(cs, new)[i],
            ) {
                (
                    CommandView::DrawString { x, y, text },
                    CommandView::DrawString { x: x2, y: y2, text: text2 },
                ) => x == x2 && y == y2,
                _ => false,
            },
    decreases cs,
{
    if cs.len() > 0 {
        let head = cs.drop_last();
        let used = drawn_texts(head).len() as int;
        let a = new.take(used);
        let b = new.skip(used);
        assert(a + b =~= new);
        replaced_texts_are_drawn(head, a);
        let now = with_texts(cs, new);
        let before = with_texts(head, a);
        assert(now.drop_last() =~= before);
        assert forall|i: int| 0 <= i < head.len() implies #[trigger] now[i] == before[i] && head[i]
            == cs[i] by {}
        match cs.last() {
            CommandView::DrawString { x, y, text } => {
                assert(b =~= seq![new[used]]);
                assert(drawn_texts(now) =~= new);
            },
            CommandView::DefineForm { resource_id, width, height, commands } => {
                replaced_texts_are_drawn(commands, b);
            },
            CommandView::DefineIsolatedForm { resource_id, width, height, commands } => {
                replaced_texts_are_drawn(commands, b);
            },
            _ => {
                assert(b =~= Seq::empty());
                assert(a =~= new);
            },
        }
    }
}

// ---------------------------------------------------------------------------------------------
// Watermarks
// ---------------------------------------------------------------------------------------------
/// Two numbers are the same but for one.
pub open spec fn is_near(a: int, b: int) -> bool {
    -1 <= a - b <= 1
}

/// What is in force for a watermark: the origin lies in the middle of the page, and is turned where
/// the angle turns anything.
pub open spec fn is_in_the_middle(now: Seq<CommandView>, page: Size, angle: Real) -> bool {
    &&& now.len() >= 1
    &&& now[0] matches CommandView::Translate(cx, cy) && is_near(
        2 * cx.milli,
        page.width.milli as int,
    ) && is_near(2 * cy.milli, page.height.milli as int)
    &&& turns(angle) ==> now.len() >= 2 && now[1] == CommandView::Rotate(angle)
    &&& !turns(angle) ==> forall|i: int| 0 <= i < now.len() ==> !(#[trigger] now[i] is Rotate)
}

/// The opacity of the watermark is set in the state that command `k` is drawn in.
pub open spec fn is_shaded(cs: Seq<CommandView>, k: int, opacity: Real) -> bool {
    exists|i: int|
        0 <= i < k && #[trigger] cs[i] == (CommandView::SetOpacity {
            fill: opacity,
            stroke: opacity,
        }) && forall|j: int|
            i < j < k ==> !(#[trigger] cs[j] is RestoreState) && !(cs[j] is SaveState)
                && !(cs[j] is SetOpacity)
}

/// A text of this width is drawn about the origin: half of it to the left, and half of its height
/// above. Heights of drawn texts count from the foot of the page.
pub open spec fn is_text_about_origin(
    c: CommandView,
    page: Size,
    width: Pt,
    height: Pt,
    text: Seq<char>,
) -> bool {
    match c {
        CommandView::DrawString { x, y, text: t } => {
            &&& t == text
            &&& is_near(2 * x.milli + width.milli, 0)
            &&& is_near(2 * (page.height.milli - y.milli) - height.milli, 0)
        },
        _ => false,
    }
}

/// The lengths can be counted with.
pub open spec fn is_countable(p: Pt) -> bool {
    0 <= p.milli <= 0x1000_0000_0000_0000
}

/// A watermark of text is drawn about the middle of the page, turned by its angle, in its opacity,
/// colour and font.
pub proof fn text_watermarks_are_centred(
    spec: WatermarkSpec,
    page: Size,
    angle: Real,
    rendered: String,
    width: Pt,
)
    requires
        is_countable(page.width),
        is_countable(page.height),
        is_countable(spec.font_size),
        is_countable(width),
    ensures
        ({
            let cs = watermark(spec, page, angle, WatermarkContent::Text { rendered, width });
            exists|k: int|
                {
                    &&& 0 <= k < cs.len()
                    &&& is_text_about_origin(
                        #[trigger] cs[k],
                        page,
                        width,
                        spec.font_size,
                        rendered@,
                    )
                    &&& is_in_the_middle(in_force(cs, k), page, angle)
                    &&& in_force(cs, k).len() == if turns(angle) {
                        2nat
                    } else {
                        1nat
                    }
                    &&& is_shaded(cs, k, spec.opacity)
                }
        }),
{
    let cs = watermark(spec, page, angle, WatermarkContent::Text { rendered, width });
    reveal_with_fuel(graphics_from, 12);
    let o: int = match spec.semantics {
        WatermarkSemantics::Visual => 0,
        WatermarkSemantics::Artifact => 1,
        WatermarkSemantics::Ocg => 2,
    };
    let k = if turns(angle) {
        o + 7
    } else {
        o + 6
    };
    assert(cs[o] is SaveState);
    assert(cs[o + 1] == (CommandView::SetOpacity { fill: spec.opacity, stroke: spec.opacity }));
    assert(cs[k] is DrawString);
    let cx = page.width.part(1, 2);
    let cy = page.height.part(1, 2);
    assert(in_force(cs, k) =~= if turns(angle) {
        seq![CommandView::Translate(cx, cy), CommandView::Rotate(angle)]
    } else {
        seq![CommandView::Translate(cx, cy)]
    });
    assert(is_shaded(cs, k, spec.opacity)) by {
        assert forall|j: int| o + 1 < j < k implies !(#[trigger] cs[j] is RestoreState) && !(
        cs[j] is SaveState) && !(cs[j] is SetOpacity) by {}
    }
}

/// A watermark image is drawn about the middle of the page: its own corner is moved by half its
/// extent from there.
pub proof fn image_watermarks_are_centred(
    spec: WatermarkSpec,
    page: Size,
    angle: Real,
    source: String,
    size: Option<Size>,
)
    requires
        is_countable(page.width),
        is_countable(page.height),
        is_countable(image_size(page, size).width),
        is_countable(image_size(page, size).height),
    ensures
        ({
            let s = image_size(page, size);
            let cs = watermark(spec, page, angle, WatermarkContent::Image { source, size });
            exists|k: int|
                {
                    &&& 0 <= k < cs.len()
                    &&& #[trigger] cs[k] matches CommandView::DrawImage {
                        x,
                        y,
                        width,
                        height,
                        resource_id,
                        interpolate,
                        source_clip,
                    } && x.milli == 0 && y.milli + height.milli == page.height.milli && width
                        == s.width && height == s.height && resource_id == source@
                    &&& is_in_the_middle(in_force(cs, k), page, angle)
                    &&& in_force(cs, k).last() matches CommandView::Translate(dx, dy) && is_near(
                        2 * dx.milli + s.width.milli,
                        0,
                    ) && is_near(2 * dy.milli + s.height.milli, 0)
                    &&& is_shaded(cs, k, spec.opacity)
                }
        }),
{
    let cs = watermark(spec, page, angle, WatermarkContent::Image { source, size });
    reveal_with_fuel(graphics_from, 12);
    let o: int = match spec.semantics {
        WatermarkSemantics::Visual => 0,
        WatermarkSemantics::Artifact => 1,
        WatermarkSemantics::Ocg => 2,
    };
    let k = if turns(angle) {
        o + 5
    } else {
        o + 4
    };
    let s = image_size(page, size);
    let cx = page.width.part(1, 2);
    let cy = page.height.part(1, 2);
    let back = CommandView::Translate(
        pt(0).minus(s.width.part(1, 2)),
        pt(0).minus(s.height.part(1, 2)),
    );
    assert(cs[o] is SaveState);
    assert(cs[o + 1] == (CommandView::SetOpacity { fill: spec.opacity, stroke: spec.opacity }));
    assert(cs[k] is DrawImage);
    assert(in_force(cs, k) =~= if turns(angle) {
        seq![CommandView::Translate(cx, cy), CommandView::Rotate(angle), back]
    } else {
        seq![CommandView::Translate(cx, cy), back]
    });
    assert(is_shaded(cs, k, spec.opacity)) by {
        assert forall|j: int| o + 1 < j < k implies !(#[trigger] cs[j] is RestoreState) && !(
        cs[j] is SaveState) && !(cs[j] is SetOpacity) by {}
    }
}

// ---------------------------------------------------------------------------------------------
// Page numbers
// ---------------------------------------------------------------------------------------------
/// The text is what the template gives for page `page` out of `total`.
pub open spec fn is_given<F: Fn(&str, usize, usize) -> String>(
    substitute: F,
    template: Option<String>,
    page: int,
    total: int,
    text: Option<String>,
) -> bool {
    template matches Some(t) ==> text matches Some(s) && gives(
        substitute,
        t,
        page as usize,
        total as usize,
        s,
    )
}

/// Pages count from one: the header for the first page is substituted as page one, that for the last
/// page as the last of all, and the running header with the number of its page.
pub proof fn headers_know_their_page<F: Fn(&str, usize, usize) -> String>(
    substitute: F,
    spec: PageHeaderSpec,
    texts: Seq<Option<String>>,
    p: int,
)
    requires
        are_header_texts(substitute, spec, texts),
        0 <= p < texts.len(),
    ensures
        ({
            let n = texts.len() as int;
            &&& p == 0 ==> is_given(substitute, spec.first, 1, n, texts[p])
            &&& p == n - 1 && n > 1 ==> is_given(substitute, spec.last, n, n, texts[p])
            &&& 0 < p < n - 1 ==> is_given(substitute, spec.each, p + 1, n, texts[p])
            &&& p == 0 && n > 1 && spec.first is None ==> texts[p] is None
            &&& 0 < p < n - 1 && spec.each is None ==> texts[p] is None
        }),
{
    headers_keep_to_their_pages(spec.first, spec.each, spec.last, p + 1, texts.len() as int);
}

/// Footers count their pages as headers do.
pub proof fn footers_know_their_page<F: Fn(&str, usize, usize) -> String>(
    substitute: F,
    spec: PageFooterSpec,
    texts: Seq<Option<String>>,
    p: int,
)
    requires
        are_footer_texts(substitute, spec, texts),
        0 <= p < texts.len(),
    ensures
        ({
            let n = texts.len() as int;
            &&& p == n - 1 ==> is_given(substitute, spec.last, n, n, texts[p])
            &&& p == 0 && n > 1 ==> is_given(substitute, spec.first, 1, n, texts[p])
            &&& 0 < p < n - 1 ==> is_given(substitute, spec.each, p + 1, n, texts[p])
            &&& 0 < p < n - 1 && spec.each is None ==> texts[p] is None
        }),
{
    footers_keep_to_their_pages(spec.first, spec.each, spec.last, p + 1, texts.len() as int);
}

} // verus!
