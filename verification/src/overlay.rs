//! Headers, footers and watermarks: what is drawn over or under every page.
//!
//! The texts that go into a page depend on its number and on page data, which the caller
//! substitutes. This module says which template a page takes, and turns the substituted texts into
//! commands.
use vstd::prelude::*;

use crate::command::{
    copy_commands, emit, model_of_form, models, Command, CommandView, Document, Page,
};
use crate::geometry::{pt, Color, Pt, Real, Size};
use crate::pmr::optional;
use crate::text::texts;

verus! {

broadcast use vstd::string::group_string_axioms;

// ---------------------------------------------------------------------------------------------
// Specifications
// ---------------------------------------------------------------------------------------------
/// A line of text at the head of a page.
pub struct PageHeaderSpec {
    pub first: Option<String>,
    pub each: Option<String>,
    pub last: Option<String>,
    pub font_name: String,
    pub font_size: Pt,
    pub color: Color,
    pub x: Pt,
    pub y_from_top: Pt,
}

/// A piece of HTML at the head of a page.
pub struct PageHeaderHtmlSpec {
    pub first: Option<String>,
    pub each: Option<String>,
    pub last: Option<String>,
    pub x: Pt,
    pub y_from_top: Pt,
    pub width: Pt,
    pub height: Pt,
}

/// A line of text at the foot of a page.
pub struct PageFooterSpec {
    pub first: Option<String>,
    pub each: Option<String>,
    pub last: Option<String>,
    pub font_name: String,
    pub font_size: Pt,
    pub color: Color,
    pub x: Pt,
    pub y_from_bottom: Pt,
}

/// Whether a watermark lies under or over the page.
#[derive(Clone, Copy, Debug, PartialEq, Eq, Structural)]
pub enum WatermarkLayer {
    Background,
    Overlay,
}

/// What a watermark shows.
pub enum WatermarkKind {
    Text(String),
    Html(String),
    Image(String),
}

/// What a watermark means to a reader of the document.
#[derive(Clone, Copy, Debug, PartialEq, Eq, Structural)]
pub enum WatermarkSemantics {
    Visual,
    Artifact,
    Ocg,
}

/// A watermark.
pub struct WatermarkSpec {
    pub kind: WatermarkKind,
    pub layer: WatermarkLayer,
    pub semantics: WatermarkSemantics,
    pub opacity: Real,
    pub rotation_deg: Real,
    pub font_name: String,
    pub font_size: Pt,
    pub color: Color,
}

/// Everything about a watermark but what it shows.
pub open spec fn has_defaults(w: WatermarkSpec) -> bool {
    &&& w.layer == WatermarkLayer::Overlay
    &&& w.semantics == WatermarkSemantics::Artifact
    &&& w.opacity == (Real { bits: 0x3e19_999a })
    &&& w.rotation_deg == (Real { bits: 0 })
    &&& w.font_name@ == "Helvetica"@
    &&& w.font_size == pt(48_000)
    &&& w.color == (Color {
        r: Real { bits: 0x3f19_999a },
        g: Real { bits: 0x3f19_999a },
        b: Real { bits: 0x3f19_999a },
    })
}

impl WatermarkSpec {
    fn with_kind(kind: WatermarkKind) -> (r: Self)
        ensures
            r.kind == kind,
            has_defaults(r),
    {
        let grey = Real { bits: 0x3f19_999a };
        WatermarkSpec {
            kind,
            layer: WatermarkLayer::Overlay,
            semantics: WatermarkSemantics::Artifact,
            opacity: Real { bits: 0x3e19_999a },
            rotation_deg: Real { bits: 0 },
            font_name: "Helvetica".to_owned(),
            font_size: Pt { milli: 48_000 },
            color: Color { r: grey, g: grey, b: grey },
        }
    }

    /// A watermark that shows a text.
    pub fn text(text: String) -> (r: Self)
        ensures
            r.kind == WatermarkKind::Text(text),
            has_defaults(r),
    {
        Self::with_kind(WatermarkKind::Text(text))
    }

    /// A watermark that shows a piece of HTML.
    pub fn html(html: String) -> (r: Self)
        ensures
            r.kind == WatermarkKind::Html(html),
            has_defaults(r),
    {
        Self::with_kind(WatermarkKind::Html(html))
    }

    /// A watermark that shows an image.
    pub fn image(path: String) -> (r: Self)
        ensures
            r.kind == WatermarkKind::Image(path),
            has_defaults(r),
    {
        Self::with_kind(WatermarkKind::Image(path))
    }
}

// ---------------------------------------------------------------------------------------------
// Which template a page takes
// ---------------------------------------------------------------------------------------------
/// The first of two texts that is there.
pub open spec fn either(a: Option<String>, b: Option<String>) -> Option<String> {
    match a {
        Some(t) => Some(t),
        None => b,
    }
}

/// The header of page `page` out of `total`. The first page takes no running header.
pub open spec fn header_template(
    first: Option<String>,
    each: Option<String>,
    last: Option<String>,
    page: int,
    total: int,
) -> Option<String> {
    if total == 1 {
        either(first, last)
    } else if page == 1 {
        first
    } else if page == total {
        either(last, each)
    } else {
        each
    }
}

/// The footer of page `page` out of `total`. A page that is first and last takes the last footer.
pub open spec fn footer_template(
    first: Option<String>,
    each: Option<String>,
    last: Option<String>,
    page: int,
    total: int,
) -> Option<String> {
    if total == 1 {
        either(last, either(first, each))
    } else if page == 1 {
        either(first, each)
    } else if page == total {
        either(last, each)
    } else {
        each
    }
}

fn first_of<'a>(a: &'a Option<String>, b: &'a Option<String>) -> (r: &'a Option<String>)
    ensures
        *r == either(*a, *b),
{
    match a {
        Some(_) => a,
        None => b,
    }
}

/// The header of page `page` out of `total`.
pub fn select_header<'a>(
    first: &'a Option<String>,
    each: &'a Option<String>,
    last: &'a Option<String>,
    page: usize,
    total: usize,
) -> (r: &'a Option<String>)
    ensures
        *r == header_template(*first, *each, *last, page as int, total as int),
{
    if total == 1 {
        first_of(first, last)
    } else if page == 1 {
        first
    } else if page == total {
        first_of(last, each)
    } else {
        each
    }
}

/// The footer of page `page` out of `total`.
pub fn select_footer<'a>(
    first: &'a Option<String>,
    each: &'a Option<String>,
    last: &'a Option<String>,
    page: usize,
    total: usize,
) -> (r: &'a Option<String>)
    ensures
        *r == footer_template(*first, *each, *last, page as int, total as int),
{
    if total == 1 {
        first_of(last, first_of(first, each))
    } else if page == 1 {
        first_of(first, each)
    } else if page == total {
        first_of(last, each)
    } else {
        each
    }
}

/// With a running footer no page is left without one; a running header leaves out the first page.
pub proof fn running_texts(each: Option<String>, page: int, total: int)
    requires
        1 <= page <= total,
        each is Some,
    ensures
        footer_template(None, each, None, page, total) == each,
        header_template(None, each, None, page, total) is None <==> page == 1,
{
}

// ---------------------------------------------------------------------------------------------
// Headers and footers
// ---------------------------------------------------------------------------------------------
/// The commands that write a line of text.
pub open spec fn text_line(
    color: Color,
    font_name: Seq<char>,
    font_size: Pt,
    x: Pt,
    y: Pt,
    text: Seq<char>,
) -> Seq<CommandView> {
    seq![
        CommandView::SetFillColor(color),
        CommandView::SetFontName(font_name),
        CommandView::SetFontSize(font_size),
        CommandView::DrawString { x, y, text },
    ]
}

fn emit_text_line(
    out: &mut Vec<Command>,
    color: Color,
    font_name: &str,
    font_size: Pt,
    x: Pt,
    y: Pt,
    text: &str,
)
    ensures
        models(final(out)@) == models(old(out)@) + text_line(
            color,
            font_name@,
            font_size,
            x,
            y,
            text@,
        ),
{
    let ghost before = models(out@);
    emit(out, Command::SetFillColor(color));
    emit(out, Command::SetFontName(font_name.to_owned()));
    emit(out, Command::SetFontSize(font_size));
    emit(out, Command::DrawString { x, y, text: text.to_owned() });
    proof {
        assert(models(out@) =~= before + text_line(color, font_name@, font_size, x, y, text@));
    }
}

/// The page with the header `text`, where there is one.
pub open spec fn with_header(
    page: Seq<CommandView>,
    spec: PageHeaderSpec,
    text: Option<Seq<char>>,
) -> Seq<CommandView> {
    match text {
        Some(t) => page + text_line(
            spec.color,
            spec.font_name@,
            spec.font_size,
            spec.x,
            spec.y_from_top,
            t,
        ),
        None => page,
    }
}

/// The upper edge of a footer: as far from the foot as asked for, but on the page.
pub open spec fn footer_y(page_size: Size, spec: PageFooterSpec) -> Pt {
    page_size.height.minus(spec.y_from_bottom).minus(spec.font_size).larger(pt(0))
}

/// The page with the footer `text`, where there is one.
pub open spec fn with_footer(
    page: Seq<CommandView>,
    page_size: Size,
    spec: PageFooterSpec,
    text: Option<Seq<char>>,
) -> Seq<CommandView> {
    match text {
        Some(t) => page + text_line(
            spec.color,
            spec.font_name@,
            spec.font_size,
            spec.x,
            footer_y(page_size, spec),
            t,
        ),
        None => page,
    }
}

/// Draws a header line on every page that has a text for it.
pub(crate) fn draw_headers(
    doc: &mut Document,
    spec: &PageHeaderSpec,
    rendered: &Vec<Option<String>>,
)
    requires
        rendered@.len() == old(doc).pages@.len(),
    ensures
        final(doc)@.page_size == old(doc)@.page_size,
        final(doc)@.pages == Seq::new(
            old(doc)@.pages.len(),
            |p: int| with_header(old(doc)@.pages[p], *spec, optional(rendered@[p])),
        ),
{
    let ghost start = doc@;
    let mut p: usize = 0;
    let n: usize = doc.pages.len();
    while p < n
        invariant
            p <= n == doc.pages@.len(),
            rendered@.len() == n,
            start.pages.len() == n,
            doc.page_size == start.page_size,
            forall|k: int|
                0 <= k < p ==> models((#[trigger] doc.pages@[k]).commands@) == with_header(
                    start.pages[k],
                    *spec,
                    optional(rendered@[k]),
                ),
            forall|k: int|
                p <= k < n ==> models((#[trigger] doc.pages@[k]).commands@) == start.pages[k],
        decreases n - p,
    {
        proof {
            assert(models(doc.pages@[p as int].commands@) == start.pages[p as int]);
        }
        match &rendered[p] {
            Some(text) => {
                let mut commands = copy_commands(&doc.pages[p].commands);
                emit_text_line(
                    &mut commands,
                    spec.color,
                    &spec.font_name,
                    spec.font_size,
                    spec.x,
                    spec.y_from_top,
                    text,
                );
                doc.pages[p] = Page { commands };
            },
            None => {},
        }
        p += 1;
    }
    proof {
        assert(doc@.pages =~= Seq::new(
            start.pages.len(),
            |p: int| with_header(start.pages[p], *spec, optional(rendered@[p])),
        ));
    }
}

/// Draws a footer line on every page that has a text for it.
pub(crate) fn draw_footers(
    doc: &mut Document,
    spec: &PageFooterSpec,
    rendered: &Vec<Option<String>>,
)
    requires
        rendered@.len() == old(doc).pages@.len(),
    ensures
        final(doc)@.page_size == old(doc)@.page_size,
        final(doc)@.pages == Seq::new(
            old(doc)@.pages.len(),
            |p: int|
                with_footer(
                    old(doc)@.pages[p],
                    old(doc)@.page_size,
                    *spec,
                    optional(rendered@[p]),
                ),
        ),
{
    let ghost start = doc@;
    let page_size = doc.page_size;
    let y = page_size.height.minus(spec.y_from_bottom).minus(spec.font_size).larger(Pt::zero());
    let mut p: usize = 0;
    let n: usize = doc.pages.len();
    while p < n
        invariant
            p <= n == doc.pages@.len(),
            rendered@.len() == n,
            start.pages.len() == n,
            doc.page_size == start.page_size,
            y == footer_y(start.page_size, *spec),
            forall|k: int|
                0 <= k < p ==> models((#[trigger] doc.pages@[k]).commands@) == with_footer(
                    start.pages[k],
                    start.page_size,
                    *spec,
                    optional(rendered@[k]),
                ),
            forall|k: int|
                p <= k < n ==> models((#[trigger] doc.pages@[k]).commands@) == start.pages[k],
        decreases n - p,
    {
        proof {
            assert(models(doc.pages@[p as int].commands@) == start.pages[p as int]);
        }
        match &rendered[p] {
            Some(text) => {
                let mut commands = copy_commands(&doc.pages[p].commands);
                emit_text_line(
                    &mut commands,
                    spec.color,
                    &spec.font_name,
                    spec.font_size,
                    spec.x,
                    y,
                    text,
                );
                doc.pages[p] = Page { commands };
            },
            None => {},
        }
        p += 1;
    }
    proof {
        assert(doc@.pages =~= Seq::new(
            start.pages.len(),
            |p: int|
                with_footer(start.pages[p], start.page_size, *spec, optional(rendered@[p])),
        ));
    }
}

/// A piece of HTML that was laid out: its commands, and the name of its form.
pub struct RenderedSnippet {
    pub form_id: String,
    pub commands: Vec<Command>,
}

/// The page with a header form, where there is one.
pub open spec fn with_header_form(
    page: Seq<CommandView>,
    spec: PageHeaderHtmlSpec,
    snippet: Option<RenderedSnippet>,
) -> Seq<CommandView> {
    match snippet {
        Some(s) => page + header_form(spec, s),
        None => page,
    }
}

/// The commands that define and draw a header form.
pub open spec fn header_form(spec: PageHeaderHtmlSpec, s: RenderedSnippet) -> Seq<CommandView> {
    seq![
        CommandView::DefineForm {
            resource_id: s.form_id@,
            width: spec.width,
            height: spec.height,
            commands: models(s.commands@),
        },
        CommandView::SaveState,
        CommandView::Translate(spec.x, spec.y_from_top),
        CommandView::ClipRect { x: pt(0), y: pt(0), width: spec.width, height: spec.height },
        CommandView::DrawForm {
            x: pt(0),
            y: pt(0),
            width: spec.width,
            height: spec.height,
            resource_id: s.form_id@,
        },
        CommandView::RestoreState,
    ]
}

fn emit_header_form(out: &mut Vec<Command>, spec: &PageHeaderHtmlSpec, s: &RenderedSnippet)
    ensures
        models(final(out)@) == models(old(out)@) + header_form(*spec, *s),
{
    let ghost before = models(out@);
    let form = Command::DefineForm {
        resource_id: s.form_id.clone(),
        width: spec.width,
        height: spec.height,
        commands: copy_commands(&s.commands),
    };
    proof {
        model_of_form(form);
    }
    emit(out, form);
    emit(out, Command::SaveState);
    emit(out, Command::Translate(spec.x, spec.y_from_top));
    emit(
        out,
        Command::ClipRect {
            x: Pt::zero(),
            y: Pt::zero(),
            width: spec.width,
            height: spec.height,
        },
    );
    emit(
        out,
        Command::DrawForm {
            x: Pt::zero(),
            y: Pt::zero(),
            width: spec.width,
            height: spec.height,
            resource_id: s.form_id.clone(),
        },
    );
    emit(out, Command::RestoreState);
    proof {
        assert(models(out@) =~= before + header_form(*spec, *s));
    }
}

/// Draws a header form on every page that has one.
pub(crate) fn draw_header_forms(
    doc: &mut Document,
    spec: &PageHeaderHtmlSpec,
    rendered: &Vec<Option<RenderedSnippet>>,
)
    requires
        rendered@.len() == old(doc).pages@.len(),
    ensures
        final(doc)@.page_size == old(doc)@.page_size,
        final(doc)@.pages == Seq::new(
            old(doc)@.pages.len(),
            |p: int| with_header_form(old(doc)@.pages[p], *spec, rendered@[p]),
        ),
{
    let ghost start = doc@;
    let mut p: usize = 0;
    let n: usize = doc.pages.len();
    while p < n
        invariant
            p <= n == doc.pages@.len(),
            rendered@.len() == n,
            start.pages.len() == n,
            doc.page_size == start.page_size,
            forall|k: int|
                0 <= k < p ==> models((#[trigger] doc.pages@[k]).commands@) == with_header_form(
                    start.pages[k],
                    *spec,
                    rendered@[k],
                ),
            forall|k: int|
                p <= k < n ==> models((#[trigger] doc.pages@[k]).commands@) == start.pages[k],
        decreases n - p,
    {
        proof {
            assert(models(doc.pages@[p as int].commands@) == start.pages[p as int]);
        }
        match &rendered[p] {
            Some(s) => {
                let mut commands = copy_commands(&doc.pages[p].commands);
                emit_header_form(&mut commands, spec, s);
                doc.pages[p] = Page { commands };
            },
            None => {},
        }
        p += 1;
    }
    proof {
        assert(doc@.pages =~= Seq::new(
            start.pages.len(),
            |p: int| with_header_form(start.pages[p], *spec, rendered@[p]),
        ));
    }
}

// ---------------------------------------------------------------------------------------------
// From templates to pages
// ---------------------------------------------------------------------------------------------
/// What substituting the placeholders of a template for page `page` out of `total` may give.
pub open spec fn gives<F: Fn(&str, usize, usize) -> String>(
    substitute: F,
    template: String,
    page: usize,
    total: usize,
    text: String,
) -> bool {
    exists|t: &str| t@ == template@ && #[trigger] call_ensures(substitute, (t, page, total), text)
}

/// The text of a page: that of its template, where it has one.
pub open spec fn is_text_of<F: Fn(&str, usize, usize) -> String>(
    substitute: F,
    template: Option<String>,
    page: usize,
    total: usize,
    text: Option<String>,
) -> bool {
    match template {
        Some(t) => text matches Some(s) && gives(substitute, t, page, total, s),
        None => text is None,
    }
}

/// The headers of all pages.
pub open spec fn are_header_texts<F: Fn(&str, usize, usize) -> String>(
    substitute: F,
    spec: PageHeaderSpec,
    texts: Seq<Option<String>>,
) -> bool {
    let n = texts.len() as int;
    forall|p: int|
        0 <= p < n ==> is_text_of(
            substitute,
            header_template(spec.first, spec.each, spec.last, p + 1, n),
            (p + 1) as usize,
            n as usize,
            #[trigger] texts[p],
        )
}

/// The footers of all pages.
pub open spec fn are_footer_texts<F: Fn(&str, usize, usize) -> String>(
    substitute: F,
    spec: PageFooterSpec,
    texts: Seq<Option<String>>,
) -> bool {
    let n = texts.len() as int;
    forall|p: int|
        0 <= p < n ==> is_text_of(
            substitute,
            footer_template(spec.first, spec.each, spec.last, p + 1, n),
            (p + 1) as usize,
            n as usize,
            #[trigger] texts[p],
        )
}

/// What laying out a template with its substituted text for page `page` out of `total` may give.
pub open spec fn lays_out<
    F: Fn(&str, usize, usize) -> String,
    G: Fn(&str, &str, usize, usize) -> RenderedSnippet,
>(
    substitute: F,
    lay_out: G,
    template: String,
    page: usize,
    total: usize,
    snippet: RenderedSnippet,
) -> bool {
    exists|text: String, t: &str, s: &str|
        #[trigger] gives(substitute, template, page, total, text) && t@ == template@ && s@ == text@
            && #[trigger] call_ensures(lay_out, (t, s, page, total), snippet)
}

/// The header form of a page: that of its template, where it has one.
pub open spec fn is_snippet_of<
    F: Fn(&str, usize, usize) -> String,
    G: Fn(&str, &str, usize, usize) -> RenderedSnippet,
>(
    substitute: F,
    lay_out: G,
    template: Option<String>,
    page: usize,
    total: usize,
    snippet: Option<RenderedSnippet>,
) -> bool {
    match template {
        Some(t) => snippet matches Some(s) && lays_out(substitute, lay_out, t, page, total, s),
        None => snippet is None,
    }
}

/// The header forms of all pages.
pub open spec fn are_header_snippets<
    F: Fn(&str, usize, usize) -> String,
    G: Fn(&str, &str, usize, usize) -> RenderedSnippet,
>(
    substitute: F,
    lay_out: G,
    spec: PageHeaderHtmlSpec,
    snippets: Seq<Option<RenderedSnippet>>,
) -> bool {
    let n = snippets.len() as int;
    forall|p: int|
        0 <= p < n ==> is_snippet_of(
            substitute,
            lay_out,
            header_template(spec.first, spec.each, spec.last, p + 1, n),
            (p + 1) as usize,
            n as usize,
            #[trigger] snippets[p],
        )
}

/// Substitutes the headers of all pages.
pub(crate) fn header_texts<F: Fn(&str, usize, usize) -> String>(
    spec: &PageHeaderSpec,
    total: usize,
    substitute: &F,
) -> (out: Vec<Option<String>>)
    requires
        forall|t: &str, p: usize, n: usize| #[trigger] call_requires(*substitute, (t, p, n)),
    ensures
        out@.len() == total,
        are_header_texts(*substitute, *spec, out@),
{
    let mut out: Vec<Option<String>> = Vec::new();
    let mut p: usize = 0;
    while p < total
        invariant
            p <= total,
            out@.len() == p,
            forall|t: &str, p: usize, n: usize| #[trigger] call_requires(*substitute, (t, p, n)),
            forall|k: int|
                0 <= k < p ==> is_text_of(
                    *substitute,
                    header_template(spec.first, spec.each, spec.last, k + 1, total as int),
                    (k + 1) as usize,
                    total,
                    #[trigger] out@[k],
                ),
        decreases total - p,
    {
        match select_header(&spec.first, &spec.each, &spec.last, p + 1, total) {
            Some(t) => {
                let template: &str = t.as_str();
                let text = substitute(template, p + 1, total);
                proof {
                    assert(call_ensures(*substitute, (template, (p + 1) as usize, total), text));
                    assert(gives(*substitute, *t, (p + 1) as usize, total, text));
                }
                out.push(Some(text));
            },
            None => {
                out.push(None);
            },
        }
        p += 1;
    }
    out
}

/// Substitutes the footers of all pages.
pub(crate) fn footer_texts<F: Fn(&str, usize, usize) -> String>(
    spec: &PageFooterSpec,
    total: usize,
    substitute: &F,
) -> (out: Vec<Option<String>>)
    requires
        forall|t: &str, p: usize, n: usize| #[trigger] call_requires(*substitute, (t, p, n)),
    ensures
        out@.len() == total,
        are_footer_texts(*substitute, *spec, out@),
{
    let mut out: Vec<Option<String>> = Vec::new();
    let mut p: usize = 0;
    while p < total
        invariant
            p <= total,
            out@.len() == p,
            forall|t: &str, p: usize, n: usize| #[trigger] call_requires(*substitute, (t, p, n)),
            forall|k: int|
                0 <= k < p ==> is_text_of(
                    *substitute,
                    footer_template(spec.first, spec.each, spec.last, k + 1, total as int),
                    (k + 1) as usize,
                    total,
                    #[trigger] out@[k],
                ),
        decreases total - p,
    {
        match select_footer(&spec.first, &spec.each, &spec.last, p + 1, total) {
            Some(t) => {
                let template: &str = t.as_str();
                let text = substitute(template, p + 1, total);
                proof {
                    assert(call_ensures(*substitute, (template, (p + 1) as usize, total), text));
                    assert(gives(*substitute, *t, (p + 1) as usize, total, text));
                }
                out.push(Some(text));
            },
            None => {
                out.push(None);
            },
        }
        p += 1;
    }
    out
}

/// Substitutes and lays out the header forms of all pages.
pub(crate) fn header_snippets<
    F: Fn(&str, usize, usize) -> String,
    G: Fn(&str, &str, usize, usize) -> RenderedSnippet,
>(spec: &PageHeaderHtmlSpec, total: usize, substitute: &F, lay_out: &G) -> (out: Vec<
    Option<RenderedSnippet>,
>)
    requires
        forall|t: &str, p: usize, n: usize| #[trigger] call_requires(*substitute, (t, p, n)),
        forall|t: &str, s: &str, p: usize, n: usize| #[trigger]
            call_requires(*lay_out, (t, s, p, n)),
    ensures
        out@.len() == total,
        are_header_snippets(*substitute, *lay_out, *spec, out@),
{
    let mut out: Vec<Option<RenderedSnippet>> = Vec::new();
    let mut p: usize = 0;
    while p < total
        invariant
            p <= total,
            out@.len() == p,
            forall|t: &str, p: usize, n: usize| #[trigger] call_requires(*substitute, (t, p, n)),
            forall|t: &str, s: &str, p: usize, n: usize| #[trigger]
                call_requires(*lay_out, (t, s, p, n)),
            forall|k: int|
                0 <= k < p ==> is_snippet_of(
                    *substitute,
                    *lay_out,
                    header_template(spec.first, spec.each, spec.last, k + 1, total as int),
                    (k + 1) as usize,
                    total,
                    #[trigger] out@[k],
                ),
        decreases total - p,
    {
        match select_header(&spec.first, &spec.each, &spec.last, p + 1, total) {
            Some(t) => {
                let template: &str = t.as_str();
                let text = substitute(template, p + 1, total);
                let rendered: &str = text.as_str();
                let snippet = lay_out(template, rendered, p + 1, total);
                proof {
                    let page = (p + 1) as usize;
                    assert(call_ensures(*substitute, (template, page, total), text));
                    assert(gives(*substitute, *t, page, total, text));
                    assert(call_ensures(*lay_out, (template, rendered, page, total), snippet));
                    assert(lays_out(*substitute, *lay_out, *t, page, total, snippet));
                }
                out.push(Some(snippet));
            },
            None => {
                out.push(None);
            },
        }
        p += 1;
    }
    out
}

/// Page `page` out of `total` with its header: as it was where no template is for it, else with the
/// substituted template drawn after it.
pub open spec fn is_headed<F: Fn(&str, usize, usize) -> String>(
    substitute: F,
    spec: PageHeaderSpec,
    page: usize,
    total: usize,
    before: Seq<CommandView>,
    after: Seq<CommandView>,
) -> bool {
    match header_template(spec.first, spec.each, spec.last, page as int, total as int) {
        Some(t) => exists|s: String| #[trigger]
            gives(substitute, t, page, total, s) && after == with_header(before, spec, Some(s@)),
        None => after == before,
    }
}

/// Page `page` out of `total` with its footer: as it was where no template is for it, else with the
/// substituted template drawn after it.
pub open spec fn is_footed<F: Fn(&str, usize, usize) -> String>(
    substitute: F,
    spec: PageFooterSpec,
    page_size: Size,
    page: usize,
    total: usize,
    before: Seq<CommandView>,
    after: Seq<CommandView>,
) -> bool {
    match footer_template(spec.first, spec.each, spec.last, page as int, total as int) {
        Some(t) => exists|s: String| #[trigger]
            gives(substitute, t, page, total, s) && after == with_footer(
                before,
                page_size,
                spec,
                Some(s@),
            ),
        None => after == before,
    }
}

/// Page `page` out of `total` with its header form: as it was where no template is for it, else
/// with the laid-out template drawn after it.
pub open spec fn is_headed_by_form<
    F: Fn(&str, usize, usize) -> String,
    G: Fn(&str, &str, usize, usize) -> RenderedSnippet,
>(
    substitute: F,
    lay_out: G,
    spec: PageHeaderHtmlSpec,
    page: usize,
    total: usize,
    before: Seq<CommandView>,
    after: Seq<CommandView>,
) -> bool {
    match header_template(spec.first, spec.each, spec.last, page as int, total as int) {
        Some(t) => exists|s: RenderedSnippet| #[trigger]
            lays_out(substitute, lay_out, t, page, total, s) && after == before + header_form(
                spec,
                s,
            ),
        None => after == before,
    }
}

/// Draws the header of each page: picks its template, substitutes its placeholders and draws the
/// text. `substitute` takes a template, the page number and the number of pages.
pub fn apply_page_header<F: Fn(&str, usize, usize) -> String>(
    doc: &mut Document,
    spec: &PageHeaderSpec,
    substitute: F,
)
    requires
        forall|t: &str, p: usize, n: usize| #[trigger] call_requires(substitute, (t, p, n)),
    ensures
        final(doc)@.page_size == old(doc)@.page_size,
        final(doc)@.pages.len() == old(doc)@.pages.len(),
        forall|p: int|
            0 <= p < old(doc)@.pages.len() ==> is_headed(
                substitute,
                *spec,
                (p + 1) as usize,
                old(doc)@.pages.len() as usize,
                old(doc)@.pages[p],
                #[trigger] final(doc)@.pages[p],
            ),
{
    let total: usize = doc.pages.len();
    let ghost start = doc@;
    let texts = header_texts(spec, total, &substitute);
    draw_headers(doc, spec, &texts);
    proof {
        assert forall|p: int| 0 <= p < start.pages.len() implies is_headed(
            substitute,
            *spec,
            (p + 1) as usize,
            total,
            start.pages[p],
            #[trigger] doc@.pages[p],
        ) by {
            let text = texts@[p];
            assert(is_text_of(
                substitute,
                header_template(spec.first, spec.each, spec.last, p + 1, total as int),
                (p + 1) as usize,
                total,
                text,
            ));
            assert(doc@.pages[p] == with_header(start.pages[p], *spec, optional(text)));
        }
    }
}

/// Draws the footer of each page: picks its template, substitutes its placeholders and draws the
/// text. `substitute` takes a template, the page number and the number of pages.
pub fn apply_page_footer<F: Fn(&str, usize, usize) -> String>(
    doc: &mut Document,
    spec: &PageFooterSpec,
    substitute: F,
)
    requires
        forall|t: &str, p: usize, n: usize| #[trigger] call_requires(substitute, (t, p, n)),
    ensures
        final(doc)@.page_size == old(doc)@.page_size,
        final(doc)@.pages.len() == old(doc)@.pages.len(),
        forall|p: int|
            0 <= p < old(doc)@.pages.len() ==> is_footed(
                substitute,
                *spec,
                old(doc)@.page_size,
                (p + 1) as usize,
                old(doc)@.pages.len() as usize,
                old(doc)@.pages[p],
                #[trigger] final(doc)@.pages[p],
            ),
{
    let total: usize = doc.pages.len();
    let ghost start = doc@;
    let texts = footer_texts(spec, total, &substitute);
    draw_footers(doc, spec, &texts);
    proof {
        assert forall|p: int| 0 <= p < start.pages.len() implies is_footed(
            substitute,
            *spec,
            start.page_size,
            (p + 1) as usize,
            total,
            start.pages[p],
            #[trigger] doc@.pages[p],
        ) by {
            let text = texts@[p];
            assert(is_text_of(
                substitute,
                footer_template(spec.first, spec.each, spec.last, p + 1, total as int),
                (p + 1) as usize,
                total,
                text,
            ));
            assert(doc@.pages[p] == with_footer(
                start.pages[p],
                start.page_size,
                *spec,
                optional(text),
            ));
        }
    }
}

/// Draws the header form of each page: picks its template, substitutes its placeholders, has it
/// laid out and draws the form. `lay_out` takes the template, the substituted text, the page number
/// and the number of pages.
pub fn apply_page_header_html<
    F: Fn(&str, usize, usize) -> String,
    G: Fn(&str, &str, usize, usize) -> RenderedSnippet,
>(doc: &mut Document, spec: &PageHeaderHtmlSpec, substitute: F, lay_out: G)
    requires
        forall|t: &str, p: usize, n: usize| #[trigger] call_requires(substitute, (t, p, n)),
        forall|t: &str, s: &str, p: usize, n: usize| #[trigger]
            call_requires(lay_out, (t, s, p, n)),
    ensures
        final(doc)@.page_size == old(doc)@.page_size,
        final(doc)@.pages.len() == old(doc)@.pages.len(),
        forall|p: int|
            0 <= p < old(doc)@.pages.len() ==> is_headed_by_form(
                substitute,
                lay_out,
                *spec,
                (p + 1) as usize,
                old(doc)@.pages.len() as usize,
                old(doc)@.pages[p],
                #[trigger] final(doc)@.pages[p],
            ),
{
    let total: usize = doc.pages.len();
    let ghost start = doc@;
    let snippets = header_snippets(spec, total, &substitute, &lay_out);
    draw_header_forms(doc, spec, &snippets);
    proof {
        assert forall|p: int| 0 <= p < start.pages.len() implies is_headed_by_form(
            substitute,
            lay_out,
            *spec,
            (p + 1) as usize,
            total,
            start.pages[p],
            #[trigger] doc@.pages[p],
        ) by {
            let snippet = snippets@[p];
            assert(is_snippet_of(
                substitute,
                lay_out,
                header_template(spec.first, spec.each, spec.last, p + 1, total as int),
                (p + 1) as usize,
                total,
                snippet,
            ));
            assert(doc@.pages[p] == with_header_form(start.pages[p], *spec, snippet));
        }
    }
}

/// How the header of a page is come by.
#[derive(Clone, Copy, Debug, PartialEq, Eq, Structural)]
pub enum SnippetSource {
    /// The template was laid out once; its texts are substituted in the commands.
    SubstituteInCommands,
    /// The substituted template is laid out, and the result may be kept.
    RenderAndKeep,
    /// The substituted template is laid out for this page alone.
    RenderAlone,
}

/// How the header of a page is come by: nothing is kept while missing glyphs are reported, and
/// a template with placeholders in its attributes is laid out anew for each text.
pub fn snippet_source(reporting: bool, attribute_placeholders: bool) -> (r: SnippetSource)
    ensures
        r == (if reporting {
            SnippetSource::RenderAlone
        } else if attribute_placeholders {
            SnippetSource::RenderAndKeep
        } else {
            SnippetSource::SubstituteInCommands
        }),
{
    if reporting {
        SnippetSource::RenderAlone
    } else if attribute_placeholders {
        SnippetSource::RenderAndKeep
    } else {
        SnippetSource::SubstituteInCommands
    }
}

// ---------------------------------------------------------------------------------------------
// Texts inside commands
// ---------------------------------------------------------------------------------------------
/// The texts that commands draw, those inside forms too, in order.
pub open spec fn drawn_texts(cs: Seq<CommandView>) -> Seq<Seq<char>>
    decreases cs,
{
    if cs.len() == 0 {
        Seq::empty()
    } else {
        let before = drawn_texts(cs.drop_last());
        match cs.last() {
            CommandView::DrawString { x, y, text } => before.push(text),
            CommandView::DefineForm { resource_id, width, height, commands } => before
                + drawn_texts(commands),
            CommandView::DefineIsolatedForm { resource_id, width, height, commands } => before
                + drawn_texts(commands),
            _ => before,
        }
    }
}

/// The commands with their texts replaced, one for one and in order.
pub open spec fn with_texts(cs: Seq<CommandView>, new: Seq<Seq<char>>) -> Seq<CommandView>
    decreases cs,
{
    if cs.len() == 0 {
        Seq::empty()
    } else {
        let head = cs.drop_last();
        let used = drawn_texts(head).len() as int;
        let before = with_texts(head, new.take(used));
        match cs.last() {
            CommandView::DrawString { x, y, text } => before.push(
                CommandView::DrawString { x, y, text: new[used] },
            ),
            CommandView::DefineForm { resource_id, width, height, commands } => before.push(
                CommandView::DefineForm {
                    resource_id,
                    width,
                    height,
                    commands: with_texts(commands, new.skip(used)),
                },
            ),
            CommandView::DefineIsolatedForm { resource_id, width, height, commands } => before.push(
                CommandView::DefineIsolatedForm {
                    resource_id,
                    width,
                    height,
                    commands: with_texts(commands, new.skip(used)),
                },
            ),
            c => before.push(c),
        }
    }
}

/// Replacing each text by itself changes nothing.
pub proof fn same_texts_same_commands(cs: Seq<CommandView>)
    ensures
        with_texts(cs, drawn_texts(cs)) == cs,
    decreases cs,
{
    if cs.len() > 0 {
        let head = cs.drop_last();
        let all = drawn_texts(cs);
        let used = drawn_texts(head).len() as int;
        assert(all.take(used) =~= drawn_texts(head));
        same_texts_same_commands(head);
        match cs.last() {
            CommandView::DefineForm { resource_id, width, height, commands } => {
                assert(all.skip(used) =~= drawn_texts(commands));
                same_texts_same_commands(commands);
            },
            CommandView::DefineIsolatedForm { resource_id, width, height, commands } => {
                assert(all.skip(used) =~= drawn_texts(commands));
                same_texts_same_commands(commands);
            },
            _ => {},
        }
        assert(head.push(cs.last()) =~= cs);
    }
}

/// The texts that commands draw, those inside forms too, in order.
pub fn drawn_texts_of(list: &Vec<Command>) -> (out: Vec<String>)
    ensures
        texts(out@) == drawn_texts(models(list@)),
    decreases list,
{
    let ghost all = models(list@);
    let mut out: Vec<String> = Vec::new();
    let mut i: usize = 0;
    proof {
        assert(all.take(0) =~= Seq::empty());
        assert(texts(out@) =~= Seq::empty());
    }
    while i < list.len()
        invariant
            i <= list@.len(),
            all == models(list@),
            texts(out@) == drawn_texts(all.take(i as int)),
        decreases list@.len() - i,
    {
        let ghost held = texts(out@);
        proof {
            assert(all.take(i + 1).drop_last() =~= all.take(i as int));
            assert(all.take(i + 1).last() == list@[i as int].model());
            model_of_form(list@[i as int]);
            assert(decreases_to!(list => list@[i as int]));
        }
        match &list[i] {
            Command::DrawString { x: _, y: _, text } => {
                out.push(text.clone());
                proof {
                    assert(texts(out@) =~= held.push(text@));
                }
            },
            Command::DefineForm { resource_id: _, width: _, height: _, commands } => {
                let mut inner = drawn_texts_of(commands);
                let ghost more = texts(inner@);
                out.append(&mut inner);
                proof {
                    assert(texts(out@) =~= held + more);
                }
            },
            Command::DefineIsolatedForm { resource_id: _, width: _, height: _, commands } => {
                let mut inner = drawn_texts_of(commands);
                let ghost more = texts(inner@);
                out.append(&mut inner);
                proof {
                    assert(texts(out@) =~= held + more);
                }
            },
            _ => {},
        }
        i += 1;
    }
    proof {
        assert(all.take(all.len() as int) =~= all);
    }
    out
}

/// The commands before `n` draw no more texts than all commands.
proof fn drawn_texts_grow(cs: Seq<CommandView>, n: int)
    requires
        0 <= n <= cs.len(),
    ensures
        drawn_texts(cs.take(n)).len() <= drawn_texts(cs).len(),
    decreases cs.len() - n,
{
    if n == cs.len() {
        assert(cs.take(n) =~= cs);
    } else {
        drawn_texts_grow(cs, n + 1);
        assert(cs.take(n + 1).drop_last() =~= cs.take(n));
    }
}

fn replace_texts(list: &Vec<Command>, new: &Vec<String>, at: usize) -> (r: (Vec<Command>, usize))
    requires
        at + drawn_texts(models(list@)).len() <= new@.len(),
    ensures
        r.1 == at + drawn_texts(models(list@)).len(),
        models(r.0@) == with_texts(
            models(list@),
            texts(new@).subrange(at as int, r.1 as int),
        ),
    decreases list,
{
    let ghost all = models(list@);
    let ghost fresh = texts(new@);
    let mut out: Vec<Command> = Vec::new();
    let mut pos: usize = at;
    let total: usize = new.len();
    let mut i: usize = 0;
    proof {
        assert(all.take(0) =~= Seq::empty());
        assert(models(out@) =~= Seq::empty());
    }
    while i < list.len()
        invariant
            i <= list@.len(),
            all == models(list@),
            fresh == texts(new@),
            at + drawn_texts(all).len() <= total == new@.len(),
            pos == at + drawn_texts(all.take(i as int)).len(),
            models(out@) == with_texts(all.take(i as int), fresh.subrange(at as int, pos as int)),
        decreases list@.len() - i,
    {
        let ghost head = all.take(i as int);
        let ghost now = all.take(i + 1);
        let ghost start = pos as int;
        proof {
            assert(now.drop_last() =~= head);
            assert(now.last() == list@[i as int].model());
            model_of_form(list@[i as int]);
            drawn_texts_grow(all, i + 1);
            assert(decreases_to!(list => list@[i as int]));
        }
        match &list[i] {
            Command::DrawString { x, y, text: _ } => {
                emit(
                    &mut out,
                    Command::DrawString { x: *x, y: *y, text: new[pos].clone() },
                );
                proof {
                    let part = fresh.subrange(at as int, start + 1);
                    assert(part.take(start - at) =~= fresh.subrange(at as int, start));
                    assert(part[start - at] == new@[start]@);
                }
                pos = pos + 1;
            },
            Command::DefineForm { resource_id, width, height, commands } => {
                let (inner, next) = replace_texts(commands, new, pos);
                let form = Command::DefineForm {
                    resource_id: resource_id.clone(),
                    width: *width,
                    height: *height,
                    commands: inner,
                };
                proof {
                    model_of_form(form);
                    let part = fresh.subrange(at as int, next as int);
                    assert(part.take(start - at) =~= fresh.subrange(at as int, start));
                    assert(part.skip(start - at) =~= fresh.subrange(start, next as int));
                }
                emit(&mut out, form);
                pos = next;
            },
            Command::DefineIsolatedForm { resource_id, width, height, commands } => {
                let (inner, next) = replace_texts(commands, new, pos);
                let form = Command::DefineIsolatedForm {
                    resource_id: resource_id.clone(),
                    width: *width,
                    height: *height,
                    commands: inner,
                };
                proof {
                    model_of_form(form);
                    let part = fresh.subrange(at as int, next as int);
                    assert(part.take(start - at) =~= fresh.subrange(at as int, start));
                    assert(part.skip(start - at) =~= fresh.subrange(start, next as int));
                }
                emit(&mut out, form);
                pos = next;
            },
            c => {
                let copied = c.copy();
                proof {
                    let part = fresh.subrange(at as int, start);
                    assert(part.take(start - at) =~= part);
                    assert(with_texts(now, part) == with_texts(head, part).push(c.model()));
                }
                emit(&mut out, copied);
            },
        }
        i += 1;
    }
    proof {
        assert(all.take(all.len() as int) =~= all);
    }
    (out, pos)
}

/// The commands with every drawn text replaced by the substituted one. `substituted` holds, in
/// order, what became of each text that `drawn_texts_of` lists.
pub fn substitute_placeholders_in_commands(
    commands: &Vec<Command>,
    substituted: &Vec<String>,
) -> (out: Vec<Command>)
    requires
        substituted@.len() == drawn_texts(models(commands@)).len(),
    ensures
        models(out@) == with_texts(models(commands@), texts(substituted@)),
{
    let r = replace_texts(commands, substituted, 0);
    proof {
        assert(texts(substituted@).subrange(0, substituted@.len() as int) =~= texts(substituted@));
    }
    r.0
}

} // verus!
