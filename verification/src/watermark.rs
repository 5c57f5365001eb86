//! Watermarks, and the documents that are laid over and under a document.
use vstd::prelude::*;

use crate::command::{
    copy_commands, emit, model_of_form, models, page_models, Command, CommandView, Document,
    DocumentView, Page,
};
use crate::documents::{has_full_page_background, has_page_background, merge_overlay_commands};
use crate::geometry::{nearest, pt, Pt, Real, Size};
use crate::overlay::{
    draw_footers, draw_headers, draw_header_forms, with_footer, with_header,
    with_header_form, PageFooterSpec, PageHeaderHtmlSpec, PageHeaderSpec, RenderedSnippet,
    WatermarkLayer, WatermarkSemantics, WatermarkSpec,
};
use crate::pmr::optional;

verus! {

broadcast use vstd::string::group_string_axioms;

/// The name of the optional content group of a watermark.
pub const WATERMARK_OCG_RESOURCE_NAME: &'static str = "FBWM";

// ---------------------------------------------------------------------------------------------
// One watermark
// ---------------------------------------------------------------------------------------------
/// What a watermark shows on one page, laid out.
pub enum WatermarkContent {
    /// A text with its placeholders substituted, and its width.
    Text { rendered: String, width: Pt },
    /// A piece of HTML that was laid out over the page.
    Html { form_id: String, commands: Vec<Command> },
    /// An image by the name under which it can be drawn, and its size where it is known.
    Image { source: String, size: Option<Size> },
}

/// Whether an angle turns anything: its size is a number above the machine epsilon.
pub open spec fn turns(angle: Real) -> bool {
    0x3400_0000 < angle.bits % 0x8000_0000 <= 0x7f80_0000
}

/// The commands with a turn, where the angle turns anything.
pub open spec fn turned(cs: Seq<CommandView>, angle: Real) -> Seq<CommandView> {
    if turns(angle) {
        cs.push(CommandView::Rotate(angle))
    } else {
        cs
    }
}

fn emit_turn(out: &mut Vec<Command>, angle: Real)
    ensures
        models(final(out)@) == turned(models(old(out)@), angle),
{
    let size: u32 = angle.bits % 0x8000_0000;
    if 0x3400_0000 < size && size <= 0x7f80_0000 {
        emit(out, Command::Rotate(angle));
    }
}

/// The commands that open the meaning of a watermark.
pub open spec fn opening(semantics: WatermarkSemantics) -> Seq<CommandView> {
    let none = Seq::<CommandView>::empty();
    match semantics {
        WatermarkSemantics::Visual => none,
        WatermarkSemantics::Artifact => none.push(
            CommandView::BeginArtifact { subtype: Some("Watermark"@) },
        ),
        WatermarkSemantics::Ocg => none.push(
            CommandView::BeginOptionalContent { name: WATERMARK_OCG_RESOURCE_NAME@ },
        ).push(CommandView::BeginArtifact { subtype: Some("Watermark"@) }),
    }
}

/// The commands with what closes the meaning of a watermark.
pub open spec fn closed(cs: Seq<CommandView>, semantics: WatermarkSemantics) -> Seq<CommandView> {
    match semantics {
        WatermarkSemantics::Visual => cs,
        WatermarkSemantics::Artifact => cs.push(CommandView::EndMarkedContent),
        WatermarkSemantics::Ocg => cs.push(CommandView::EndMarkedContent).push(
            CommandView::EndMarkedContent,
        ),
    }
}

/// A third of the page, which an image of unknown size takes.
pub open spec fn default_image_size(page: Size) -> Size {
    Size { width: page.width.part(1, 3), height: page.height.part(1, 3) }
}

/// The size at which an image is drawn.
pub open spec fn image_size(page: Size, size: Option<Size>) -> Size {
    match size {
        Some(s) => s,
        None => default_image_size(page),
    }
}

/// The commands that draw a watermark about the middle of a page.
pub open spec fn watermark(
    spec: WatermarkSpec,
    page: Size,
    angle: Real,
    content: WatermarkContent,
) -> Seq<CommandView> {
    let cx = page.width.part(1, 2);
    let cy = page.height.part(1, 2);
    let opacity = CommandView::SetOpacity { fill: spec.opacity, stroke: spec.opacity };
    let start = opening(spec.semantics);
    let body = match content {
        WatermarkContent::Text { rendered, width } => {
            let middle = start.push(CommandView::SaveState).push(opacity).push(
                CommandView::SetFillColor(spec.color),
            ).push(CommandView::Translate(cx, cy));
            let top = pt(0).minus(spec.font_size.part(1, 2));
            turned(middle, angle).push(CommandView::SetFontName(spec.font_name@)).push(
                CommandView::SetFontSize(spec.font_size),
            ).push(
                CommandView::DrawString {
                    x: pt(0).minus(width.part(1, 2)),
                    y: page.height.minus(top).minus(spec.font_size),
                    text: rendered@,
                },
            )
        },
        WatermarkContent::Html { form_id, commands } => {
            let middle = start.push(
                CommandView::DefineForm {
                    resource_id: form_id@,
                    width: page.width,
                    height: page.height,
                    commands: models(commands@),
                },
            ).push(CommandView::SaveState).push(opacity).push(CommandView::Translate(cx, cy));
            let top = pt(0).minus(cy);
            turned(middle, angle).push(
                CommandView::DrawForm {
                    x: pt(0).minus(cx),
                    y: page.height.minus(top).minus(page.height),
                    width: page.width,
                    height: page.height,
                    resource_id: form_id@,
                },
            )
        },
        WatermarkContent::Image { source, size } => {
            let s = image_size(page, size);
            let middle = start.push(CommandView::SaveState).push(opacity).push(
                CommandView::Translate(cx, cy),
            );
            turned(middle, angle).push(
                CommandView::Translate(
                    pt(0).minus(s.width.part(1, 2)),
                    pt(0).minus(s.height.part(1, 2)),
                ),
            ).push(
                CommandView::DrawImage {
                    x: pt(0),
                    y: page.height.minus(s.height),
                    width: s.width,
                    height: s.height,
                    resource_id: source@,
                    interpolate: true,
                    source_clip: None,
                },
            )
        },
    };
    closed(body.push(CommandView::RestoreState), spec.semantics)
}

/// Builds the commands of a watermark. `angle` is the rotation of the watermark in radians.
pub fn build_watermark_commands(
    spec: &WatermarkSpec,
    page_size: Size,
    angle: Real,
    content: &WatermarkContent,
) -> (out: Vec<Command>)
    ensures
        models(out@) == watermark(*spec, page_size, angle, *content),
{
    let cx = page_size.width.mul_ratio(1, 2);
    let cy = page_size.height.mul_ratio(1, 2);
    let mut out: Vec<Command> = Vec::new();
    proof {
        assert(models(out@) =~= Seq::empty());
    }
    match spec.semantics {
        WatermarkSemantics::Visual => {},
        WatermarkSemantics::Artifact => {
            emit(&mut out, Command::BeginArtifact { subtype: Some("Watermark".to_owned()) });
        },
        WatermarkSemantics::Ocg => {
            emit(
                &mut out,
                Command::BeginOptionalContent { name: WATERMARK_OCG_RESOURCE_NAME.to_owned() },
            );
            emit(&mut out, Command::BeginArtifact { subtype: Some("Watermark".to_owned()) });
        },
    }
    match content {
        WatermarkContent::Text { rendered, width } => {
            let top = Pt::zero().minus(spec.font_size.mul_ratio(1, 2));
            emit(&mut out, Command::SaveState);
            emit(&mut out, Command::SetOpacity { fill: spec.opacity, stroke: spec.opacity });
            emit(&mut out, Command::SetFillColor(spec.color));
            emit(&mut out, Command::Translate(cx, cy));
            emit_turn(&mut out, angle);
            emit(&mut out, Command::SetFontName(spec.font_name.clone()));
            emit(&mut out, Command::SetFontSize(spec.font_size));
            emit(
                &mut out,
                Command::DrawString {
                    x: Pt::zero().minus(width.mul_ratio(1, 2)),
                    y: page_size.height.minus(top).minus(spec.font_size),
                    text: rendered.clone(),
                },
            );
        },
        WatermarkContent::Html { form_id, commands } => {
            let form = Command::DefineForm {
                resource_id: form_id.clone(),
                width: page_size.width,
                height: page_size.height,
                commands: copy_commands(commands),
            };
            proof {
                model_of_form(form);
            }
            emit(&mut out, form);
            emit(&mut out, Command::SaveState);
            emit(&mut out, Command::SetOpacity { fill: spec.opacity, stroke: spec.opacity });
            emit(&mut out, Command::Translate(cx, cy));
            emit_turn(&mut out, angle);
            let top = Pt::zero().minus(cy);
            emit(
                &mut out,
                Command::DrawForm {
                    x: Pt::zero().minus(cx),
                    y: page_size.height.minus(top).minus(page_size.height),
                    width: page_size.width,
                    height: page_size.height,
                    resource_id: form_id.clone(),
                },
            );
        },
        WatermarkContent::Image { source, size } => {
            let s = match size {
                Some(s) => *s,
                None => Size {
                    width: page_size.width.mul_ratio(1, 3),
                    height: page_size.height.mul_ratio(1, 3),
                },
            };
            emit(&mut out, Command::SaveState);
            emit(&mut out, Command::SetOpacity { fill: spec.opacity, stroke: spec.opacity });
            emit(&mut out, Command::Translate(cx, cy));
            emit_turn(&mut out, angle);
            emit(
                &mut out,
                Command::Translate(
                    Pt::zero().minus(s.width.mul_ratio(1, 2)),
                    Pt::zero().minus(s.height.mul_ratio(1, 2)),
                ),
            );
            emit(
                &mut out,
                Command::DrawImage {
                    x: Pt::zero(),
                    y: page_size.height.minus(s.height),
                    width: s.width,
                    height: s.height,
                    resource_id: source.clone(),
                    interpolate: true,
                    source_clip: None,
                },
            );
        },
    }
    emit(&mut out, Command::RestoreState);
    match spec.semantics {
        WatermarkSemantics::Visual => {},
        WatermarkSemantics::Artifact => {
            emit(&mut out, Command::EndMarkedContent);
        },
        WatermarkSemantics::Ocg => {
            emit(&mut out, Command::EndMarkedContent);
            emit(&mut out, Command::EndMarkedContent);
        },
    }
    out
}

/// How many steps of marked content a command opens, less those that it closes.
pub open spec fn marked_steps(c: CommandView) -> int {
    match c {
        CommandView::BeginArtifact { subtype } => 1,
        CommandView::BeginOptionalContent { name } => 1,
        CommandView::EndMarkedContent => -1,
        _ => 0,
    }
}

/// How many graphics states a command saves, less those that it restores.
pub open spec fn state_steps(c: CommandView) -> int {
    match c {
        CommandView::SaveState => 1,
        CommandView::RestoreState => -1,
        _ => 0,
    }
}

/// The sum of the steps of marked content over a list of commands.
pub open spec fn marked_balance(cs: Seq<CommandView>) -> int
    decreases cs.len(),
{
    if cs.len() == 0 {
        0
    } else {
        marked_balance(cs.drop_last()) + marked_steps(cs.last())
    }
}

/// The sum of the saved states over a list of commands.
pub open spec fn state_balance(cs: Seq<CommandView>) -> int
    decreases cs.len(),
{
    if cs.len() == 0 {
        0
    } else {
        state_balance(cs.drop_last()) + state_steps(cs.last())
    }
}

proof fn balance_push(cs: Seq<CommandView>, c: CommandView)
    ensures
        marked_balance(cs.push(c)) == marked_balance(cs) + marked_steps(c),
        state_balance(cs.push(c)) == state_balance(cs) + state_steps(c),
{
    assert(cs.push(c).drop_last() =~= cs);
}

/// A watermark closes every graphics state and all marked content that it opens.
pub proof fn watermark_is_balanced(
    spec: WatermarkSpec,
    page: Size,
    angle: Real,
    content: WatermarkContent,
)
    ensures
        marked_balance(watermark(spec, page, angle, content)) == 0,
        state_balance(watermark(spec, page, angle, content)) == 0,
{
    assert forall|cs: Seq<CommandView>, c: CommandView|
        marked_balance(#[trigger] cs.push(c)) == marked_balance(cs) + marked_steps(c)
            && state_balance(cs.push(c)) == state_balance(cs) + state_steps(c) by {
        balance_push(cs, c);
    }
    assert(marked_balance(Seq::<CommandView>::empty()) == 0);
    assert(state_balance(Seq::<CommandView>::empty()) == 0);
}

/// The size at which an image of `w` by `h` pixels fits a page: as large as 35 hundredths of the
/// page allow in both directions.
pub open spec fn fitted_image(w: int, h: int, page: Size) -> Option<Size> {
    let pw = page.width.milli as int;
    let ph = page.height.milli as int;
    if w == 0 || h == 0 {
        None
    } else if h * pw > ph * w {
        Some(
            Size { width: pt(nearest(35 * (ph * w), 100 * h)), height: pt(nearest(35 * ph, 100)) },
        )
    } else {
        Some(
            Size { width: pt(nearest(35 * pw, 100)), height: pt(nearest(35 * (pw * h), 100 * w)) },
        )
    }
}

fn nearest_pt(a: i128, b: i128) -> (r: Pt)
    requires
        0 < b <= 100 * 0xffff_ffff,
        -0x1000_0000_0000_0000_0000_0000_0000 <= a <= 0x1000_0000_0000_0000_0000_0000_0000,
    ensures
        r == pt(nearest(a as int, b as int)),
{
    let q: i128 = if a >= 0 {
        (2 * a + b) / (2 * b)
    } else {
        let m: i128 = -a;
        -((2 * m + b) / (2 * b))
    };
    if q > i64::MAX as i128 {
        Pt { milli: i64::MAX }
    } else if q < i64::MIN as i128 {
        Pt { milli: i64::MIN }
    } else {
        Pt { milli: q as i64 }
    }
}

proof fn pixel_product(a: i64, b: u32)
    ensures
        -0x8000_0000_0000_0000 * 0x1_0000_0000 <= a * b <= 0x8000_0000_0000_0000 * 0x1_0000_0000,
{
    assert(-0x8000_0000_0000_0000 * 0x1_0000_0000 <= a * b <= 0x8000_0000_0000_0000 * 0x1_0000_0000)
        by (nonlinear_arith)
        requires
            -0x8000_0000_0000_0000 <= a <= 0x7fff_ffff_ffff_ffff,
            0 <= b <= 0xffff_ffff,
    ;
}

/// The size at which an image fits a page as a watermark; none for an image without extent.
pub fn watermark_image_size(w: u32, h: u32, page_size: Size) -> (r: Option<Size>)
    ensures
        r == fitted_image(w as int, h as int, page_size),
{
    if w == 0 || h == 0 {
        return None;
    }
    let pw = page_size.width.milli;
    let ph = page_size.height.milli;
    proof {
        pixel_product(pw, h);
        pixel_product(ph, w);
        assert(h * pw == pw * h) by (nonlinear_arith);
    }
    let across: i128 = (pw as i128) * (h as i128);
    let down: i128 = (ph as i128) * (w as i128);
    if across > down {
        Some(
            Size {
                width: nearest_pt(35 * down, 100 * (h as i128)),
                height: nearest_pt(35 * (ph as i128), 100),
            },
        )
    } else {
        Some(
            Size {
                width: nearest_pt(35 * (pw as i128), 100),
                height: nearest_pt(35 * across, 100 * (w as i128)),
            },
        )
    }
}

// ---------------------------------------------------------------------------------------------
// Documents of watermarks, overlays and backgrounds
// ---------------------------------------------------------------------------------------------
/// A watermark with what it shows on each page.
pub struct WatermarkPages {
    pub spec: WatermarkSpec,
    pub angle: Real,
    pub contents: Vec<WatermarkContent>,
}

/// The pages of a watermark.
pub open spec fn watermark_pages(w: WatermarkPages, page: Size) -> Seq<Seq<CommandView>> {
    Seq::new(w.contents@.len(), |p: int| watermark(w.spec, page, w.angle, w.contents@[p]))
}

/// Builds the document that holds a watermark on each page of `base`.
pub fn build_watermark_document(base: &Document, w: &WatermarkPages) -> (doc: Document)
    requires
        w.contents@.len() == base.pages@.len(),
    ensures
        doc.page_size == base.page_size,
        doc@.pages == watermark_pages(*w, base.page_size),
{
    let mut pages: Vec<Page> = Vec::new();
    let mut p: usize = 0;
    while p < w.contents.len()
        invariant
            p <= w.contents@.len(),
            pages@.len() == p,
            forall|k: int|
                0 <= k < p ==> models((#[trigger] pages@[k]).commands@) == watermark(
                    w.spec,
                    base.page_size,
                    w.angle,
                    w.contents@[k],
                ),
        decreases w.contents@.len() - p,
    {
        let commands = build_watermark_commands(
            &w.spec,
            base.page_size,
            w.angle,
            &w.contents[p],
        );
        pages.push(Page { commands });
        p += 1;
    }
    let doc = Document { page_size: base.page_size, pages };
    proof {
        assert(doc@.pages =~= watermark_pages(*w, base.page_size));
    }
    doc
}

/// What is laid over and under a document, with its texts substituted page by page.
pub struct OverlayParts {
    pub watermark: Option<WatermarkPages>,
    pub header_html: Option<(PageHeaderHtmlSpec, Vec<Option<RenderedSnippet>>)>,
    pub header: Option<(PageHeaderSpec, Vec<Option<String>>)>,
    pub footer: Option<(PageFooterSpec, Vec<Option<String>>)>,
}

/// Every part speaks of as many pages as the document has.
pub open spec fn fits_pages(parts: OverlayParts, n: int) -> bool {
    &&& parts.watermark matches Some(w) ==> w.contents@.len() == n
    &&& parts.header_html matches Some(h) ==> h.1@.len() == n
    &&& parts.header matches Some(h) ==> h.1@.len() == n
    &&& parts.footer matches Some(f) ==> f.1@.len() == n
}

/// Whether a watermark is drawn over the page: where it was asked for, or where a background of
/// the page would hide it.
pub open spec fn is_over(base: DocumentView, w: WatermarkPages) -> bool {
    w.spec.layer == WatermarkLayer::Overlay || has_page_background(base)
}

/// The overlay of page `p`: watermark, header and footer, in this order. A header of HTML takes the
/// place of a header line.
pub open spec fn overlay_page(base: DocumentView, parts: OverlayParts, p: int) -> Seq<CommandView> {
    let none = Seq::<CommandView>::empty();
    let marked = match parts.watermark {
        Some(w) => if is_over(base, w) {
            none + watermark_pages(w, base.page_size)[p]
        } else {
            none
        },
        None => none,
    };
    let headed = match parts.header_html {
        Some(h) => with_header_form(marked, h.0, h.1@[p]),
        None => match parts.header {
            Some(h) => with_header(marked, h.0, optional(h.1@[p])),
            None => marked,
        },
    };
    match parts.footer {
        Some(f) => with_footer(headed, base.page_size, f.0, optional(f.1@[p])),
        None => headed,
    }
}

/// There is something to lay over the document.
pub open spec fn has_overlay(base: DocumentView, parts: OverlayParts) -> bool {
    ||| parts.watermark matches Some(w) && is_over(base, w)
    ||| parts.header_html is Some
    ||| parts.header is Some
    ||| parts.footer is Some
}

/// The first of two documents is what is laid over a document, the second what is laid under it.
pub open spec fn are_layers(
    base: DocumentView,
    parts: OverlayParts,
    layers: (Option<Document>, Option<Document>),
) -> bool {
    &&& match layers.0 {
        Some(over) => {
            &&& has_overlay(base, parts)
            &&& over@.page_size == base.page_size
            &&& over@.pages == Seq::new(base.pages.len(), |p: int| overlay_page(base, parts, p))
        },
        None => !has_overlay(base, parts),
    }
    &&& match layers.1 {
        Some(under) => {
            &&& parts.watermark matches Some(w) && !is_over(base, w) && under@.pages
                == watermark_pages(w, base.page_size)
            &&& under@.page_size == base.page_size
        },
        None => match parts.watermark {
            Some(w) => is_over(base, w),
            None => true,
        },
    }
}

/// Draws what is laid over and under a document.
pub fn draw_layers(base: &Document, parts: &OverlayParts) -> (r: (
    Option<Document>,
    Option<Document>,
))
    requires
        fits_pages(*parts, base.pages@.len() as int),
    ensures
        are_layers(base@, *parts, r),
{
    let mut overlay = blank_document(base);
    let mut any = false;
    let mut background: Option<Document> = None;
    let ghost n = base@.pages.len();
    match &parts.watermark {
        Some(w) => {
            let over = match w.spec.layer {
                WatermarkLayer::Overlay => true,
                WatermarkLayer::Background => has_full_page_background(base),
            };
            let wm = build_watermark_document(base, w);
            if over {
                merge_overlay_commands(&mut overlay, &wm);
                any = true;
            } else {
                background = Some(wm);
            }
        },
        None => {},
    }
    proof {
        assert(overlay@.pages.len() == n);
        assert(page_models(overlay.pages@).len() == overlay.pages@.len());
    }
    match &parts.header_html {
        Some(h) => {
            draw_header_forms(&mut overlay, &h.0, &h.1);
            any = true;
        },
        None => match &parts.header {
            Some(h) => {
                draw_headers(&mut overlay, &h.0, &h.1);
                any = true;
            },
            None => {},
        },
    }
    proof {
        assert(overlay@.pages.len() == n);
        assert(page_models(overlay.pages@).len() == overlay.pages@.len());
    }
    match &parts.footer {
        Some(f) => {
            draw_footers(&mut overlay, &f.0, &f.1);
            any = true;
        },
        None => {},
    }
    proof {
        assert(overlay@.pages =~= Seq::new(n, |p: int| overlay_page(base@, *parts, p)));
    }
    if any {
        (Some(overlay), background)
    } else {
        (None, background)
    }
}

fn blank_document(base: &Document) -> (doc: Document)
    ensures
        doc.page_size == base.page_size,
        doc@.pages == Seq::new(base@.pages.len(), |p: int| Seq::<CommandView>::empty()),
{
    let mut pages: Vec<Page> = Vec::new();
    let mut p: usize = 0;
    while p < base.pages.len()
        invariant
            p <= base.pages@.len(),
            pages@.len() == p,
            forall|k: int|
                0 <= k < p ==> models((#[trigger] pages@[k]).commands@) == Seq::<
                    CommandView,
                >::empty(),
        decreases base.pages@.len() - p,
    {
        let commands: Vec<Command> = Vec::new();
        proof {
            assert(models(commands@) =~= Seq::empty());
        }
        pages.push(Page { commands });
        p += 1;
    }
    let doc = Document { page_size: base.page_size, pages };
    proof {
        assert(doc@.pages =~= Seq::new(base@.pages.len(), |p: int| Seq::<CommandView>::empty()));
    }
    doc
}

} // verus!
