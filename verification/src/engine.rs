//! The engine at work: what it composes, what it verifies and what it keeps.
use vstd::prelude::*;

use crate::builder::{
    is_fresh, string_option, text_option, AssetBundle, FontSources, FullBleed, FullBleedBuilder,
};
use crate::caches::{kept, with_entry, RenderContextCache};
use crate::command::{Document, DocumentView};
use crate::compose::{compose_document, document_html, join_css, merged_css};
use crate::documents::{merge_background_commands, merge_overlay_commands, overlaid, underlaid};
use crate::dom::{is_document, HtmlDocument};
use crate::facts::{
    facts_of, focus_targets_are_nodes, verify_accessibility_html_facts, A11yVerifierFacts, Share,
};
use crate::findings::{
    core_findings, core_rules, finding_views, A11yQuestion, A11yVerifierFinding,
};
use crate::geometry::Real;
use crate::overlay::{
    are_footer_texts, are_header_snippets, are_header_texts, footer_texts, header_snippets,
    header_texts, PageFooterSpec, PageHeaderHtmlSpec, PageHeaderSpec, RenderedSnippet,
    WatermarkKind, WatermarkSpec,
};
use crate::pages::PageDefaults;
use crate::pmr::{is_complete, PmrContract, PmrCoreContext, PmrQuestion};
use crate::rank::{open_reviews, rank_document, reports, PmrCoreReport};
use crate::settings::{Double, JitMode, OutputIntent, PdfOptions, PdfProfile};
use crate::text::texts;
use crate::watermark::{are_layers, draw_layers, OverlayParts, WatermarkContent, WatermarkPages};
use crate::verdicts::{is_right_report, reports_are_right};

verus! {

broadcast use vstd::string::group_string_axioms;

/// What the verifier found in a document.
pub struct A11yVerifierCoreReport {
    pub profile: String,
    pub findings: Vec<A11yVerifierFinding>,
    pub facts: A11yVerifierFacts,
}

fn copy_text(t: &Option<String>) -> (r: Option<String>)
    ensures
        r == *t,
{
    match t {
        Some(s) => Some(s.clone()),
        None => None,
    }
}

impl FullBleed {
    /// A builder with the default settings.
    pub fn builder() -> (r: FullBleedBuilder)
        ensures
            is_fresh(r),
    {
        FullBleedBuilder::new()
    }

    /// The language of documents.
    pub fn document_lang(&self) -> (r: Option<&str>)
        ensures
            text_option(r) == string_option(self.pdf_options.document_lang),
    {
        match &self.pdf_options.document_lang {
            Some(s) => Some(s.as_str()),
            None => None,
        }
    }

    /// The title of documents.
    pub fn document_title(&self) -> (r: Option<&str>)
        ensures
            text_option(r) == string_option(self.pdf_options.document_title),
    {
        match &self.pdf_options.document_title {
            Some(s) => Some(s.as_str()),
            None => None,
        }
    }

    /// Writes a whole document around a body.
    pub fn compose_document_html(&self, body_html: &str) -> (out: String)
        ensures
            out@ == document_html(
                self.pdf_options.document_lang,
                self.pdf_options.document_title,
                body_html@,
            ),
    {
        compose_document(
            &self.pdf_options.document_lang,
            &self.pdf_options.document_title,
            body_html,
        )
    }

    /// Puts the style sheet of the assets before another.
    pub fn merge_css(&self, css: &str) -> (out: String)
        ensures
            out@ == merged_css(self.asset_css@, css@),
    {
        join_css(&self.asset_css, css)
    }

    /// The style sheet that is written beside a document.
    pub fn compose_artifact_css(&self, css: &str) -> (out: String)
        ensures
            out@ == merged_css(self.asset_css@, css@),
    {
        self.merge_css(css)
    }

    /// The HTML that is written: as it is, or as a whole document around it.
    pub fn artifact_html(&self, html: &str, wrap_document: bool) -> (out: String)
        ensures
            out@ == (if wrap_document {
                document_html(
                    self.pdf_options.document_lang,
                    self.pdf_options.document_title,
                    html@,
                )
            } else {
                html@
            }),
    {
        if wrap_document {
            self.compose_document_html(html)
        } else {
            html.to_owned()
        }
    }

    /// Gathers the facts of a document and applies every rule of the verifier to them.
    /// `three_places` writes a share as a decimal fraction to three places.
    pub fn verify_accessibility_html_core<F: Fn(&Share) -> String>(
        &self,
        document: &HtmlDocument,
        profile: &str,
        three_places: F,
    ) -> (r: A11yVerifierCoreReport)
        requires
            is_document(document.nodes@),
            forall|s: &Share| #[trigger] call_requires(three_places, (s,)),
        ensures
            r.profile@ == profile@,
            facts_of(document.nodes@, r.facts),
            exists|q: A11yQuestion|
                q.expected_lang == self.pdf_options.document_lang && q.expected_title
                    == self.pdf_options.document_title && q.profile@ == profile@ && call_ensures(
                    three_places,
                    (&r.facts.figure_max_caption_similarity,),
                    q.similarity_text,
                ) && finding_views(r.findings@) == #[trigger] core_rules(r.facts, q)
                    && is_right_report(document.nodes@, r.facts, q, finding_views(r.findings@)),
    {
        let facts = verify_accessibility_html_facts(document);
        let similarity_text = three_places(&facts.figure_max_caption_similarity);
        let q = A11yQuestion {
            expected_lang: copy_text(&self.pdf_options.document_lang),
            expected_title: copy_text(&self.pdf_options.document_title),
            profile: profile.to_owned(),
            similarity_text,
        };
        proof {
            focus_targets_are_nodes(document.nodes@, document.nodes@.len() as int);
            assert(document.nodes@.len() == document.nodes.len());
        }
        proof {
            reports_are_right(document.nodes@, facts, q);
        }
        let findings = core_findings(&facts, &q);
        A11yVerifierCoreReport { profile: profile.to_owned(), findings, facts }
    }

    /// Gathers the facts of a document and ranks it by a table of audits.
    pub fn verify_paged_media_rank_html_core(
        &self,
        c: &PmrContract,
        document: &HtmlDocument,
        html_is_empty: bool,
        profile: &str,
        mode: &str,
        ctx: &PmrCoreContext,
    ) -> (r: PmrCoreReport)
        requires
            is_document(document.nodes@),
            is_complete(*c),
            open_reviews(*ctx) <= usize::MAX,
        ensures
            facts_of(document.nodes@, r.facts),
            exists|q: PmrQuestion|
                q.expected_lang == self.pdf_options.document_lang && q.expected_title
                    == self.pdf_options.document_title && q.profile@ == profile@ && q.html_is_empty
                    == html_is_empty && #[trigger] reports(*c, q, mode@, *ctx, r),
    {
        let facts = verify_accessibility_html_facts(document);
        let q = PmrQuestion {
            expected_lang: copy_text(&self.pdf_options.document_lang),
            expected_title: copy_text(&self.pdf_options.document_title),
            profile: profile.to_owned(),
            html_is_empty,
        };
        rank_document(c, facts, &q, mode, ctx)
    }

    /// The page size and margins that were set when the engine was built.
    pub fn page_defaults(&self) -> (d: PageDefaults)
        ensures
            d.page_size == self.default_page_size,
            d.margins == self.default_margins,
            d.page_margins.entries@ == self.page_margins.entries@,
            d.page_size_explicit == self.page_size_explicit,
            d.margins_explicit == self.margins_explicit,
    {
        PageDefaults {
            page_size: self.default_page_size,
            margins: self.default_margins,
            page_margins: self.page_margins.copy(),
            page_size_explicit: self.page_size_explicit,
            margins_explicit: self.margins_explicit,
        }
    }

    /// The render context that is kept for a style sheet.
    pub fn kept_context(&self, css: &str) -> (r: Option<u64>)
        ensures
            r == kept(self.render_context_cache.list(), css@),
    {
        match self.render_context_cache.get(css) {
            Some(id) => Some(*id),
            None => None,
        }
    }

    /// Keeps a render context for a style sheet. All else stays as it is.
    pub fn keep_context(&mut self, css: &str, id: u64)
        requires
            old(self).render_context_cache.is_valid(),
        ensures
            final(self).render_context_cache.is_valid(),
            final(self).render_context_cache.list() == with_entry(
                old(self).render_context_cache.list(),
                css@,
                id,
            ),
            *final(self) == (FullBleed {
                render_context_cache: final(self).render_context_cache,
                ..*old(self)
            }),
    {
        self.render_context_cache.insert(css.to_owned(), id);
    }
}

// ---------------------------------------------------------------------------------------------
// Finishing a document
// ---------------------------------------------------------------------------------------------
/// A document with what is laid under and over it.
pub open spec fn layered(
    base: DocumentView,
    background: Option<DocumentView>,
    overlay: Option<DocumentView>,
) -> DocumentView {
    let under = match background {
        Some(b) => underlaid(base, b),
        None => base,
    };
    match overlay {
        Some(o) => overlaid(under, o),
        None => under,
    }
}

/// A document that may be missing.
pub open spec fn document_option(d: Option<Document>) -> Option<DocumentView> {
    match d {
        Some(x) => Some(x@),
        None => None,
    }
}

impl FullBleed {
    /// Finishes a document: the painted plan takes its place where the mode asks for that, else its
    /// layers are put together.
    pub fn finalize_with_jit(
        &self,
        base: Document,
        overlay: &Option<Document>,
        background: &Option<Document>,
        painted_plan: Option<Document>,
    ) -> (r: Document)
        requires
            self.jit_mode == JitMode::PlanAndReplay ==> painted_plan is Some,
        ensures
            self.jit_mode == JitMode::PlanAndReplay ==> Some(r) == painted_plan,
            self.jit_mode != JitMode::PlanAndReplay ==> r@ == layered(
                base@,
                document_option(*background),
                document_option(*overlay),
            ),
    {
        match (self.jit_mode, painted_plan) {
            (JitMode::PlanAndReplay, Some(painted)) => painted,
            _ => {
                let mut out = base;
                match background {
                    Some(b) => {
                        merge_background_commands(&mut out, b);
                    },
                    None => {},
                }
                match overlay {
                    Some(o) => {
                        merge_overlay_commands(&mut out, o);
                    },
                    None => {},
                }
                out
            },
        }
    }
}

/// The parts that an engine lays over and under the `n` pages of a document: its watermark with what
/// `content` gives for each page, its header and its footer with the template of each page
/// substituted. A header of HTML takes the place of a header line.
pub open spec fn are_parts<
    C: Fn(&WatermarkSpec, usize, usize) -> WatermarkContent,
    F: Fn(&str, usize, usize) -> String,
    G: Fn(&str, &str, usize, usize) -> RenderedSnippet,
>(
    e: FullBleed,
    n: int,
    angle: Real,
    content: C,
    substitute: F,
    lay_out: G,
    parts: OverlayParts,
) -> bool {
    &&& match e.watermark {
        Some(w) => parts.watermark matches Some(x) && x.spec == w && x.angle == angle
            && x.contents@.len() == n && forall|p: int|
            0 <= p < n ==> call_ensures(
                content,
                (&w, (p + 1) as usize, n as usize),
                #[trigger] x.contents@[p],
            ),
        None => parts.watermark is None,
    }
    &&& match e.page_header_html {
        Some(h) => parts.header_html matches Some(x) && x.0 == h && x.1@.len() == n
            && are_header_snippets(substitute, lay_out, h, x.1@),
        None => parts.header_html is None,
    }
    &&& match e.page_header {
        Some(h) => if e.page_header_html is Some {
            parts.header is None
        } else {
            parts.header matches Some(x) && x.0 == h && x.1@.len() == n && are_header_texts(
                substitute,
                h,
                x.1@,
            )
        },
        None => parts.header is None,
    }
    &&& match e.page_footer {
        Some(h) => parts.footer matches Some(x) && x.0 == h && x.1@.len() == n && are_footer_texts(
            substitute,
            h,
            x.1@,
        ),
        None => parts.footer is None,
    }
}

impl FullBleed {
    /// Builds what is laid over and under a document. `angle` is the rotation of the watermark in
    /// radians; `content` gives what the watermark shows on a page out of so many, `substitute` the
    /// text of a template there, and `lay_out` the form of a template and its text.
    pub fn build_overlay_documents<
        C: Fn(&WatermarkSpec, usize, usize) -> WatermarkContent,
        F: Fn(&str, usize, usize) -> String,
        G: Fn(&str, &str, usize, usize) -> RenderedSnippet,
    >(&self, base: &Document, angle: Real, content: C, substitute: F, lay_out: G) -> (r: (
        Option<Document>,
        Option<Document>,
    ))
        requires
            forall|w: &WatermarkSpec, p: usize, n: usize| #[trigger]
                call_requires(content, (w, p, n)),
            forall|t: &str, p: usize, n: usize| #[trigger] call_requires(substitute, (t, p, n)),
            forall|t: &str, s: &str, p: usize, n: usize| #[trigger]
                call_requires(lay_out, (t, s, p, n)),
        ensures
            exists|parts: OverlayParts|
                are_parts(
                    *self,
                    base.pages@.len() as int,
                    angle,
                    content,
                    substitute,
                    lay_out,
                    parts,
                ) && #[trigger] are_layers(base@, parts, r),
    {
        let total: usize = base.pages.len();
        let watermark = match &self.watermark {
            Some(w) => {
                let mut contents: Vec<WatermarkContent> = Vec::new();
                let mut p: usize = 0;
                while p < total
                    invariant
                        p <= total,
                        contents@.len() == p,
                        forall|w: &WatermarkSpec, p: usize, n: usize| #[trigger]
                            call_requires(content, (w, p, n)),
                        forall|k: int|
                            0 <= k < p ==> call_ensures(
                                content,
                                (w, (k + 1) as usize, total),
                                #[trigger] contents@[k],
                            ),
                    decreases total - p,
                {
                    contents.push(content(w, p + 1, total));
                    p += 1;
                }
                match copy_watermark(&self.watermark) {
                    Some(spec) => Some(WatermarkPages { spec, angle, contents }),
                    None => None,
                }
            },
            None => None,
        };
        let header_html = match copy_header_html(&self.page_header_html) {
            Some(h) => {
                let snippets = header_snippets(&h, total, &substitute, &lay_out);
                Some((h, snippets))
            },
            None => None,
        };
        let header = if self.page_header_html.is_some() {
            None
        } else {
            match copy_header(&self.page_header) {
                Some(h) => {
                    let texts = header_texts(&h, total, &substitute);
                    Some((h, texts))
                },
                None => None,
            }
        };
        let footer = match copy_footer(&self.page_footer) {
            Some(h) => {
                let texts = footer_texts(&h, total, &substitute);
                Some((h, texts))
            },
            None => None,
        };
        let parts = OverlayParts { watermark, header_html, header, footer };
        let layers = draw_layers(base, &parts);
        proof {
            assert(are_parts(
                *self,
                base.pages@.len() as int,
                angle,
                content,
                substitute,
                lay_out,
                parts,
            ));
        }
        layers
    }
}

// ---------------------------------------------------------------------------------------------
// A second engine with the same settings
// ---------------------------------------------------------------------------------------------
/// Two lists of texts are the same.
pub open spec fn same_list(a: Vec<String>, b: Vec<String>) -> bool {
    texts(a@) == texts(b@)
}

/// Two settings of the written file are the same.
pub open spec fn same_options(a: PdfOptions, b: PdfOptions) -> bool {
    &&& a == (PdfOptions { output_intent: a.output_intent, ..b })
    &&& match (a.output_intent, b.output_intent) {
        (Some(x), Some(y)) => {
            &&& x.icc_profile@ == y.icc_profile@
            &&& x.n_components == y.n_components
            &&& x.identifier == y.identifier
        },
        (None, None) => true,
        _ => false,
    }
}

/// Two engines have the same settings.
pub open spec fn same_engine(a: FullBleed, b: FullBleed) -> bool {
    &&& a == (FullBleed {
        page_margins: a.page_margins,
        fonts: a.fonts,
        pdf_options: a.pdf_options,
        render_context_cache: a.render_context_cache,
        ..b
    })
    &&& a.page_margins.entries@ == b.page_margins.entries@
    &&& a.fonts.unicode_metrics == b.fonts.unicode_metrics
    &&& same_list(a.fonts.dirs, b.fonts.dirs)
    &&& same_list(a.fonts.files, b.fonts.files)
    &&& same_options(a.pdf_options, b.pdf_options)
}

fn copy_texts(v: &Vec<String>) -> (out: Vec<String>)
    ensures
        texts(out@) == texts(v@),
{
    let mut out: Vec<String> = Vec::new();
    let mut i: usize = 0;
    while i < v.len()
        invariant
            i <= v@.len(),
            out@.len() == i,
            forall|k: int| 0 <= k < i ==> (#[trigger] out@[k])@ == v@[k]@,
        decreases v@.len() - i,
    {
        out.push(v[i].clone());
        i += 1;
    }
    proof {
        assert(texts(out@) =~= texts(v@));
    }
    out
}

fn copy_bytes(v: &Vec<u8>) -> (out: Vec<u8>)
    ensures
        out@ == v@,
{
    let mut out: Vec<u8> = Vec::new();
    let mut i: usize = 0;
    while i < v.len()
        invariant
            i <= v@.len(),
            out@ == v@.take(i as int),
        decreases v@.len() - i,
    {
        out.push(v[i]);
        proof {
            assert(out@ =~= v@.take(i + 1));
        }
        i += 1;
    }
    proof {
        assert(out@ =~= v@);
    }
    out
}

pub(crate) fn copy_options(o: &PdfOptions) -> (r: PdfOptions)
    ensures
        same_options(r, *o),
{
    let output_intent = match &o.output_intent {
        Some(i) => Some(
            OutputIntent {
                icc_profile: copy_bytes(&i.icc_profile),
                n_components: i.n_components,
                identifier: i.identifier.clone(),
            },
        ),
        None => None,
    };
    PdfOptions {
        reuse_xobjects: o.reuse_xobjects,
        unicode_support: o.unicode_support,
        shape_text: o.shape_text,
        pdf_profile: PdfProfile {
            name: o.pdf_profile.name.clone(),
            requires_output_intent: o.pdf_profile.requires_output_intent,
        },
        output_intent,
        pdf_version: o.pdf_version,
        color_space: o.color_space,
        document_lang: copy_text(&o.document_lang),
        document_title: copy_text(&o.document_title),
        compression: o.compression,
    }
}

fn copy_watermark(w: &Option<WatermarkSpec>) -> (r: Option<WatermarkSpec>)
    ensures
        r == *w,
{
    match w {
        Some(w) => {
            let kind = match &w.kind {
                WatermarkKind::Text(s) => WatermarkKind::Text(s.clone()),
                WatermarkKind::Html(s) => WatermarkKind::Html(s.clone()),
                WatermarkKind::Image(s) => WatermarkKind::Image(s.clone()),
            };
            Some(
                WatermarkSpec {
                    kind,
                    layer: w.layer,
                    semantics: w.semantics,
                    opacity: w.opacity,
                    rotation_deg: w.rotation_deg,
                    font_name: w.font_name.clone(),
                    font_size: w.font_size,
                    color: w.color,
                },
            )
        },
        None => None,
    }
}

fn copy_header(h: &Option<PageHeaderSpec>) -> (r: Option<PageHeaderSpec>)
    ensures
        r == *h,
{
    match h {
        Some(h) => Some(
            PageHeaderSpec {
                first: copy_text(&h.first),
                each: copy_text(&h.each),
                last: copy_text(&h.last),
                font_name: h.font_name.clone(),
                font_size: h.font_size,
                color: h.color,
                x: h.x,
                y_from_top: h.y_from_top,
            },
        ),
        None => None,
    }
}

fn copy_header_html(h: &Option<PageHeaderHtmlSpec>) -> (r: Option<PageHeaderHtmlSpec>)
    ensures
        r == *h,
{
    match h {
        Some(h) => Some(
            PageHeaderHtmlSpec {
                first: copy_text(&h.first),
                each: copy_text(&h.each),
                last: copy_text(&h.last),
                x: h.x,
                y_from_top: h.y_from_top,
                width: h.width,
                height: h.height,
            },
        ),
        None => None,
    }
}

fn copy_footer(h: &Option<PageFooterSpec>) -> (r: Option<PageFooterSpec>)
    ensures
        r == *h,
{
    match h {
        Some(h) => Some(
            PageFooterSpec {
                first: copy_text(&h.first),
                each: copy_text(&h.each),
                last: copy_text(&h.last),
                font_name: h.font_name.clone(),
                font_size: h.font_size,
                color: h.color,
                x: h.x,
                y_from_bottom: h.y_from_bottom,
            },
        ),
        None => None,
    }
}

impl FullBleed {
    /// A second engine with the same settings, which has kept no render context yet.
    pub fn clone_for_compiled_reflow(&self) -> (r: FullBleed)
        ensures
            same_engine(r, *self),
            r.render_context_cache.is_valid(),
            r.render_context_cache.entries@.len() == 0,
    {
        FullBleed {
            default_page_size: self.default_page_size,
            default_margins: self.default_margins,
            page_margins: self.page_margins.copy(),
            page_size_explicit: self.page_size_explicit,
            margins_explicit: self.margins_explicit,
            fonts: FontSources {
                unicode_metrics: self.fonts.unicode_metrics,
                dirs: copy_texts(&self.fonts.dirs),
                files: copy_texts(&self.fonts.files),
            },
            pdf_options: copy_options(&self.pdf_options),
            svg_form_xobjects: self.svg_form_xobjects,
            svg_raster_fallback: self.svg_raster_fallback,
            debug_log: copy_text(&self.debug_log),
            perf_log: copy_text(&self.perf_log),
            jit_mode: self.jit_mode,
            layout_strategy: self.layout_strategy,
            lazy_max_passes: self.lazy_max_passes,
            lazy_budget_ms: self.lazy_budget_ms,
            page_header: copy_header(&self.page_header),
            page_header_html: copy_header_html(&self.page_header_html),
            page_footer: copy_footer(&self.page_footer),
            paginated_context: self.paginated_context,
            template_binding_spec: self.template_binding_spec,
            watermark: copy_watermark(&self.watermark),
            asset_css: self.asset_css.clone(),
            asset_bundle: AssetBundle {
                css: self.asset_bundle.css.clone(),
                handle: self.asset_bundle.handle,
            },
            render_context_cache: RenderContextCache::new(),
        }
    }
}

// ---------------------------------------------------------------------------------------------
// Metrics
// ---------------------------------------------------------------------------------------------
/// What one page took.
#[derive(Clone, Copy, Debug, PartialEq, Eq, Structural)]
pub struct PageMetrics {
    pub page_number: usize,
    pub render_ms: Double,
    pub command_count: usize,
    pub flowable_count: usize,
    pub content_bytes: usize,
}

/// What a document took.
pub struct DocumentMetrics {
    pub pages: Vec<PageMetrics>,
    pub total_render_ms: Double,
    pub total_bytes: usize,
}

/// What is known of the pages of a document before it is written.
pub fn layout_metrics(document: &Document, layout_ms: Double) -> (m: DocumentMetrics)
    ensures
        m.total_render_ms == layout_ms,
        m.total_bytes == 0,
        m.pages@.len() == document.pages@.len(),
        forall|p: int|
            0 <= p < document.pages@.len() ==> (#[trigger] m.pages@[p]) == (PageMetrics {
                page_number: (p + 1) as usize,
                render_ms: Double { bits: 0 },
                command_count: document.pages@[p].commands@.len() as usize,
                flowable_count: 0,
                content_bytes: 0,
            }),
{
    let n: usize = document.pages.len();
    let mut pages: Vec<PageMetrics> = Vec::new();
    let mut p: usize = 0;
    while p < n
        invariant
            p <= n == document.pages@.len(),
            pages@.len() == p,
            forall|k: int|
                0 <= k < p ==> (#[trigger] pages@[k]) == (PageMetrics {
                    page_number: (k + 1) as usize,
                    render_ms: Double { bits: 0 },
                    command_count: document.pages@[k].commands@.len() as usize,
                    flowable_count: 0,
                    content_bytes: 0,
                }),
        decreases n - p,
    {
        let command_count: usize = document.pages[p].commands.len();
        pages.push(
            PageMetrics {
                page_number: p + 1,
                render_ms: Double { bits: 0 },
                command_count,
                flowable_count: 0,
                content_bytes: 0,
            },
        );
        p += 1;
    }
    DocumentMetrics { pages, total_render_ms: layout_ms, total_bytes: 0 }
}

} // verus!
