//! Setting up the engine.
use vstd::prelude::*;

use crate::caches::RenderContextCache;
use crate::documents::FullBleedError;
use crate::geometry::{pt, Color, Margins, Pt, Size};
use crate::layout::LayoutStrategy;
use crate::overlay::{
    has_defaults, PageFooterSpec, PageHeaderHtmlSpec, PageHeaderSpec, WatermarkKind,
    WatermarkSemantics, WatermarkSpec,
};
use crate::pages::MarginTable;
use crate::settings::{
    is_default, is_positive, option_fault, refuses, validate_pdf_options, ColorSpace, Double, JitMode,
    OutputIntent, PdfOptions, PdfProfile, PdfVersion,
};

verus! {

broadcast use vstd::string::group_string_axioms;

// ---------------------------------------------------------------------------------------------
// The builder
// ---------------------------------------------------------------------------------------------
/// What is summed up over the pages of a document, by the handle that the host gave it.
#[derive(Clone, Copy, Debug, PartialEq, Eq, Structural)]
pub struct PaginatedContextSpec {
    pub handle: u64,
}

/// How pages are bound to templates, by the handle that the host gave it.
#[derive(Clone, Copy, Debug, PartialEq, Eq, Structural)]
pub struct TemplateBindingSpec {
    pub handle: u64,
}

/// A bundle of assets: its style sheet, and the handle that the host gave it.
pub struct AssetBundle {
    pub css: String,
    pub handle: u64,
}

/// The engine before it is built.
pub struct FullBleedBuilder {
    pub page_size: Size,
    pub margins: Margins,
    pub page_size_explicit: bool,
    pub margins_explicit: bool,
    pub font_dirs: Vec<String>,
    pub font_files: Vec<String>,
    pub pdf_options: PdfOptions,
    pub svg_form_xobjects: bool,
    pub svg_raster_fallback: bool,
    pub unicode_metrics: bool,
    pub debug_path: Option<String>,
    pub perf_enabled: bool,
    pub perf_path: Option<String>,
    pub jit_mode: JitMode,
    pub layout_strategy: LayoutStrategy,
    pub accept_lazy_layout_cost: bool,
    pub lazy_max_passes: usize,
    pub lazy_budget_ms: Double,
    pub page_header: Option<PageHeaderSpec>,
    pub page_header_html: Option<PageHeaderHtmlSpec>,
    pub page_footer: Option<PageFooterSpec>,
    pub paginated_context: Option<PaginatedContextSpec>,
    pub template_binding_spec: Option<TemplateBindingSpec>,
    pub page_margins: MarginTable,
    pub watermark: Option<WatermarkSpec>,
    pub asset_bundle: AssetBundle,
}

/// A builder before anything is chosen.
pub open spec fn is_fresh(b: FullBleedBuilder) -> bool {
    &&& b.page_size == (Size { width: pt(595_280), height: pt(841_890) })
    &&& b.margins == (Margins {
        top: pt(36_000),
        right: pt(36_000),
        bottom: pt(36_000),
        left: pt(36_000),
    })
    &&& !b.page_size_explicit
    &&& !b.margins_explicit
    &&& b.font_dirs@.len() == 0
    &&& b.font_files@.len() == 0
    &&& is_default(b.pdf_options)
    &&& !b.svg_form_xobjects
    &&& !b.svg_raster_fallback
    &&& b.unicode_metrics
    &&& b.debug_path is None
    &&& !b.perf_enabled
    &&& b.perf_path is None
    &&& b.jit_mode == JitMode::Off
    &&& b.layout_strategy == LayoutStrategy::Eager
    &&& !b.accept_lazy_layout_cost
    &&& b.lazy_max_passes == 4
    &&& b.lazy_budget_ms == (Double { bits: 0x4049_0000_0000_0000 })
    &&& b.page_header is None
    &&& b.page_header_html is None
    &&& b.page_footer is None
    &&& b.paginated_context is None
    &&& b.template_binding_spec is None
    &&& b.page_margins.entries@.len() == 0
    &&& b.watermark is None
    &&& b.asset_bundle.css@ == ""@
}

/// What keeps the engine from being built: the first fault of the settings.
pub open spec fn build_fault(b: FullBleedBuilder) -> Option<Seq<char>> {
    let lazy = b.layout_strategy == LayoutStrategy::Lazy;
    if lazy && !b.accept_lazy_layout_cost {
        Some("layout_strategy=lazy requires accept_lazy_layout_cost(true)"@)
    } else if lazy && b.lazy_max_passes < 2 {
        Some("layout_strategy=lazy requires lazy_max_passes >= 2"@)
    } else if lazy && !is_positive(b.lazy_budget_ms) {
        Some("layout_strategy=lazy requires lazy_budget_ms > 0"@)
    } else {
        option_fault(b.pdf_options)
    }
}

impl FullBleedBuilder {
    /// A builder with the default settings.
    pub fn new() -> (r: Self)
        ensures
            is_fresh(r),
    {
        FullBleedBuilder {
            page_size: Size::a4(),
            margins: Margins::all(Pt { milli: 36_000 }),
            page_size_explicit: false,
            margins_explicit: false,
            font_dirs: Vec::new(),
            font_files: Vec::new(),
            pdf_options: PdfOptions::default(),
            svg_form_xobjects: false,
            svg_raster_fallback: false,
            unicode_metrics: true,
            debug_path: None,
            perf_enabled: false,
            perf_path: None,
            jit_mode: JitMode::Off,
            layout_strategy: LayoutStrategy::Eager,
            accept_lazy_layout_cost: false,
            lazy_max_passes: 4,
            lazy_budget_ms: Double { bits: 0x4049_0000_0000_0000 },
            page_header: None,
            page_header_html: None,
            page_footer: None,
            paginated_context: None,
            template_binding_spec: None,
            page_margins: MarginTable::new(),
            watermark: None,
            asset_bundle: AssetBundle { css: "".to_owned(), handle: 0 },
        }
    }

    /// Sets the page size.
    pub fn page_size(self, size: Size) -> (r: Self)
        ensures
            r == (FullBleedBuilder { page_size: size, page_size_explicit: true, ..self }),
    {
        FullBleedBuilder { page_size: size, page_size_explicit: true, ..self }
    }

    /// Sets the margins of all pages.
    pub fn margins(self, margins: Margins) -> (r: Self)
        ensures
            r == (FullBleedBuilder { margins: margins, margins_explicit: true, ..self }),
    {
        FullBleedBuilder { margins: margins, margins_explicit: true, ..self }
    }

    /// Sets the same margin on all sides of all pages.
    pub fn margin_all(self, value: Pt) -> (r: Self)
        ensures
            r == (FullBleedBuilder {
                margins: Margins { top: value, right: value, bottom: value, left: value },
                margins_explicit: true,
                ..self
            }),
    {
        FullBleedBuilder { margins: Margins::all(value), margins_explicit: true, ..self }
    }

    /// Draws each SVG image as a form.
    pub fn svg_form_xobjects(self, enabled: bool) -> (r: Self)
        ensures
            r == (FullBleedBuilder { svg_form_xobjects: enabled, ..self }),
    {
        FullBleedBuilder { svg_form_xobjects: enabled, ..self }
    }

    /// Draws an SVG image that cannot be drawn as shapes as a raster image.
    pub fn svg_raster_fallback(self, enabled: bool) -> (r: Self)
        ensures
            r == (FullBleedBuilder { svg_raster_fallback: enabled, ..self }),
    {
        FullBleedBuilder { svg_raster_fallback: enabled, ..self }
    }

    /// Sets the margins of one page. Pages are counted from one; there is no page nought.
    pub fn page_margin(self, page_number: usize, margins: Margins) -> (r: Self)
        ensures
            page_number == 0 ==> r == self,
            page_number >= 1 ==> {
                &&& r == (FullBleedBuilder {
                    page_margins: r.page_margins,
                    margins_explicit: true,
                    ..self
                })
                &&& r.page_margins.margins_of(page_number as int) == Some(margins)
                &&& forall|p: int|
                    p != page_number ==> #[trigger] r.page_margins.margins_of(p)
                        == self.page_margins.margins_of(p)
                &&& r.page_margins.last_page() == (if page_number > self.page_margins.last_page() {
                    page_number as int
                } else {
                    self.page_margins.last_page()
                })
                &&& r.page_margins.entries@.len() > 0
            },
    {
        if page_number >= 1 {
            let mut table = self.page_margins;
            table.set(page_number, margins);
            FullBleedBuilder { page_margins: table, margins_explicit: true, ..self }
        } else {
            self
        }
    }

    /// Adds a directory of fonts.
    pub fn register_font_dir(self, path: String) -> (r: Self)
        ensures
            r == (FullBleedBuilder { font_dirs: r.font_dirs, ..self }),
            r.font_dirs@ == self.font_dirs@.push(path),
    {
        let mut font_dirs = self.font_dirs;
        font_dirs.push(path);
        FullBleedBuilder { font_dirs, ..self }
    }

    /// Adds a font.
    pub fn register_font_file(self, path: String) -> (r: Self)
        ensures
            r == (FullBleedBuilder { font_files: r.font_files, ..self }),
            r.font_files@ == self.font_files@.push(path),
    {
        let mut font_files = self.font_files;
        font_files.push(path);
        FullBleedBuilder { font_files, ..self }
    }

    /// Writes equal images once.
    pub fn reuse_xobjects(self, enabled: bool) -> (r: Self)
        ensures
            r == (FullBleedBuilder {
                pdf_options: PdfOptions { reuse_xobjects: enabled, ..self.pdf_options },
                ..self
            }),
    {
        FullBleedBuilder {
            pdf_options: PdfOptions { reuse_xobjects: enabled, ..self.pdf_options },
            ..self
        }
    }

    /// Writes text as Unicode.
    pub fn unicode_support(self, enabled: bool) -> (r: Self)
        ensures
            r == (FullBleedBuilder {
                pdf_options: PdfOptions { unicode_support: enabled, ..self.pdf_options },
                ..self
            }),
    {
        FullBleedBuilder {
            pdf_options: PdfOptions { unicode_support: enabled, ..self.pdf_options },
            ..self
        }
    }

    /// Shapes text of complex scripts.
    pub fn shape_text(self, enabled: bool) -> (r: Self)
        ensures
            r == (FullBleedBuilder {
                pdf_options: PdfOptions { shape_text: enabled, ..self.pdf_options },
                ..self
            }),
    {
        FullBleedBuilder {
            pdf_options: PdfOptions { shape_text: enabled, ..self.pdf_options },
            ..self
        }
    }

    /// Sets how a batch is planned.
    pub fn jit_mode(self, mode: JitMode) -> (r: Self)
        ensures
            r == (FullBleedBuilder { jit_mode: mode, ..self }),
    {
        FullBleedBuilder { jit_mode: mode, ..self }
    }

    /// Sets how often a document is laid out.
    pub fn layout_strategy(self, strategy: LayoutStrategy) -> (r: Self)
        ensures
            r == (FullBleedBuilder { layout_strategy: strategy, ..self }),
    {
        FullBleedBuilder { layout_strategy: strategy, ..self }
    }

    /// Lays documents out until they settle, or once.
    pub fn lazy_layout(self, enabled: bool) -> (r: Self)
        ensures
            r == (FullBleedBuilder {
                layout_strategy: if enabled {
                    LayoutStrategy::Lazy
                } else {
                    LayoutStrategy::Eager
                },
                ..self
            }),
    {
        let layout_strategy = if enabled {
            LayoutStrategy::Lazy
        } else {
            LayoutStrategy::Eager
        };
        FullBleedBuilder { layout_strategy, ..self }
    }

    /// Accepts that lazy layout takes longer.
    pub fn accept_lazy_layout_cost(self, accepted: bool) -> (r: Self)
        ensures
            r == (FullBleedBuilder { accept_lazy_layout_cost: accepted, ..self }),
    {
        FullBleedBuilder { accept_lazy_layout_cost: accepted, ..self }
    }

    /// Limits the passes and the time of lazy layout.
    pub fn lazy_layout_limits(self, max_passes: usize, budget_ms: Double) -> (r: Self)
        ensures
            r == (FullBleedBuilder { lazy_max_passes: max_passes, lazy_budget_ms: budget_ms, ..self }),
    {
        FullBleedBuilder { lazy_max_passes: max_passes, lazy_budget_ms: budget_ms, ..self }
    }

    /// Sets the conformance profile.
    pub fn pdf_profile(self, profile: PdfProfile) -> (r: Self)
        ensures
            r == (FullBleedBuilder {
                pdf_options: PdfOptions { pdf_profile: profile, ..self.pdf_options },
                ..self
            }),
    {
        FullBleedBuilder {
            pdf_options: PdfOptions { pdf_profile: profile, ..self.pdf_options },
            ..self
        }
    }

    /// Sets the output intent.
    pub fn output_intent(self, intent: OutputIntent) -> (r: Self)
        ensures
            r == (FullBleedBuilder {
                pdf_options: PdfOptions { output_intent: Some(intent), ..self.pdf_options },
                ..self
            }),
    {
        FullBleedBuilder {
            pdf_options: PdfOptions { output_intent: Some(intent), ..self.pdf_options },
            ..self
        }
    }

    /// Removes the output intent.
    pub fn clear_output_intent(self) -> (r: Self)
        ensures
            r == (FullBleedBuilder {
                pdf_options: PdfOptions { output_intent: None, ..self.pdf_options },
                ..self
            }),
    {
        FullBleedBuilder {
            pdf_options: PdfOptions { output_intent: None, ..self.pdf_options },
            ..self
        }
    }

    /// Sets the version of the file format.
    pub fn pdf_version(self, version: PdfVersion) -> (r: Self)
        ensures
            r == (FullBleedBuilder {
                pdf_options: PdfOptions { pdf_version: version, ..self.pdf_options },
                ..self
            }),
    {
        FullBleedBuilder {
            pdf_options: PdfOptions { pdf_version: version, ..self.pdf_options },
            ..self
        }
    }

    /// Sets the colour space of painted shapes.
    pub fn color_space(self, space: ColorSpace) -> (r: Self)
        ensures
            r == (FullBleedBuilder {
                pdf_options: PdfOptions { color_space: space, ..self.pdf_options },
                ..self
            }),
    {
        FullBleedBuilder {
            pdf_options: PdfOptions { color_space: space, ..self.pdf_options },
            ..self
        }
    }

    /// Sets the language of documents.
    pub fn document_lang(self, lang: String) -> (r: Self)
        ensures
            r == (FullBleedBuilder {
                pdf_options: PdfOptions { document_lang: Some(lang), ..self.pdf_options },
                ..self
            }),
    {
        FullBleedBuilder {
            pdf_options: PdfOptions { document_lang: Some(lang), ..self.pdf_options },
            ..self
        }
    }

    /// Removes the language of documents.
    pub fn clear_document_lang(self) -> (r: Self)
        ensures
            r == (FullBleedBuilder {
                pdf_options: PdfOptions { document_lang: None, ..self.pdf_options },
                ..self
            }),
    {
        FullBleedBuilder {
            pdf_options: PdfOptions { document_lang: None, ..self.pdf_options },
            ..self
        }
    }

    /// The language of documents.
    pub fn document_lang_value(&self) -> (r: Option<&str>)
        ensures
            text_option(r) == string_option(self.pdf_options.document_lang),
    {
        match &self.pdf_options.document_lang {
            Some(s) => Some(s.as_str()),
            None => None,
        }
    }

    /// Sets the title of documents.
    pub fn document_title(self, title: String) -> (r: Self)
        ensures
            r == (FullBleedBuilder {
                pdf_options: PdfOptions { document_title: Some(title), ..self.pdf_options },
                ..self
            }),
    {
        FullBleedBuilder {
            pdf_options: PdfOptions { document_title: Some(title), ..self.pdf_options },
            ..self
        }
    }

    /// Removes the title of documents.
    pub fn clear_document_title(self) -> (r: Self)
        ensures
            r == (FullBleedBuilder {
                pdf_options: PdfOptions { document_title: None, ..self.pdf_options },
                ..self
            }),
    {
        FullBleedBuilder {
            pdf_options: PdfOptions { document_title: None, ..self.pdf_options },
            ..self
        }
    }

    /// The title of documents.
    pub fn document_title_value(&self) -> (r: Option<&str>)
        ensures
            text_option(r) == string_option(self.pdf_options.document_title),
    {
        match &self.pdf_options.document_title {
            Some(s) => Some(s.as_str()),
            None => None,
        }
    }

    /// Measures text as it is shaped.
    pub fn unicode_metrics(self, enabled: bool) -> (r: Self)
        ensures
            r == (FullBleedBuilder { unicode_metrics: enabled, ..self }),
    {
        FullBleedBuilder { unicode_metrics: enabled, ..self }
    }

    /// Writes a debug log.
    pub fn debug_log(self, path: String) -> (r: Self)
        ensures
            r == (FullBleedBuilder { debug_path: Some(path), ..self }),
    {
        FullBleedBuilder { debug_path: Some(path), ..self }
    }

    /// Writes a log of timings.
    pub fn perf_log(self, path: String) -> (r: Self)
        ensures
            r == (FullBleedBuilder { perf_enabled: true, perf_path: Some(path), ..self }),
    {
        FullBleedBuilder { perf_enabled: true, perf_path: Some(path), ..self }
    }

    /// Turns the log of timings on or off. A path that was set keeps it on.
    pub fn perf_enabled(self, enabled: bool) -> (r: Self)
        ensures
            r == (FullBleedBuilder { perf_enabled: enabled, ..self }),
    {
        FullBleedBuilder { perf_enabled: enabled, ..self }
    }

    /// Sets the line at the head of pages.
    pub fn page_header(
        self,
        first: Option<String>,
        each: Option<String>,
        last: Option<String>,
        x: Pt,
        y_from_top: Pt,
        font_name: String,
        font_size: Pt,
        color: Color,
    ) -> (r: Self)
        ensures
            r == (FullBleedBuilder {
                page_header: Some(
                    PageHeaderSpec {
                        first,
                        each,
                        last,
                        x,
                        y_from_top,
                        font_name,
                        font_size,
                        color,
                    },
                ),
                ..self
            }),
    {
        FullBleedBuilder {
            page_header: Some(
                PageHeaderSpec { first, each, last, x, y_from_top, font_name, font_size, color },
            ),
            ..self
        }
    }

    /// Sets the piece of HTML at the head of pages.
    pub fn page_header_html(
        self,
        first: Option<String>,
        each: Option<String>,
        last: Option<String>,
        x: Pt,
        y_from_top: Pt,
        width: Pt,
        height: Pt,
    ) -> (r: Self)
        ensures
            r == (FullBleedBuilder {
                page_header_html: Some(
                    PageHeaderHtmlSpec { first, each, last, x, y_from_top, width, height },
                ),
                ..self
            }),
    {
        FullBleedBuilder {
            page_header_html: Some(
                PageHeaderHtmlSpec { first, each, last, x, y_from_top, width, height },
            ),
            ..self
        }
    }

    /// Sets the line at the foot of pages.
    pub fn page_footer(
        self,
        first: Option<String>,
        each: Option<String>,
        last: Option<String>,
        x: Pt,
        y_from_bottom: Pt,
        font_name: String,
        font_size: Pt,
        color: Color,
    ) -> (r: Self)
        ensures
            r == (FullBleedBuilder {
                page_footer: Some(
                    PageFooterSpec {
                        first,
                        each,
                        last,
                        x,
                        y_from_bottom,
                        font_name,
                        font_size,
                        color,
                    },
                ),
                ..self
            }),
    {
        FullBleedBuilder {
            page_footer: Some(
                PageFooterSpec { first, each, last, x, y_from_bottom, font_name, font_size, color },
            ),
            ..self
        }
    }

    /// Sets the watermark.
    pub fn watermark(self, spec: WatermarkSpec) -> (r: Self)
        ensures
            r == (FullBleedBuilder { watermark: Some(spec), ..self }),
    {
        FullBleedBuilder { watermark: Some(spec), ..self }
    }

    /// Sets what the watermark means to a reader; without a watermark nothing changes.
    pub fn watermark_semantics(self, semantics: WatermarkSemantics) -> (r: Self)
        ensures
            r == (FullBleedBuilder {
                watermark: match self.watermark {
                    Some(w) => Some(WatermarkSpec { semantics, ..w }),
                    None => None,
                },
                ..self
            }),
    {
        let watermark = match self.watermark {
            Some(w) => Some(WatermarkSpec { semantics, ..w }),
            None => None,
        };
        FullBleedBuilder { watermark, ..self }
    }

    /// Sets a text as the watermark.
    pub fn watermark_text(self, text: String) -> (r: Self)
        ensures
            r == (FullBleedBuilder { watermark: r.watermark, ..self }),
            r.watermark matches Some(w) && w.kind == WatermarkKind::Text(text) && has_defaults(w),
    {
        FullBleedBuilder { watermark: Some(WatermarkSpec::text(text)), ..self }
    }

    /// Sets a piece of HTML as the watermark.
    pub fn watermark_html(self, html: String) -> (r: Self)
        ensures
            r == (FullBleedBuilder { watermark: r.watermark, ..self }),
            r.watermark matches Some(w) && w.kind == WatermarkKind::Html(html) && has_defaults(w),
    {
        FullBleedBuilder { watermark: Some(WatermarkSpec::html(html)), ..self }
    }

    /// Sets an image as the watermark.
    pub fn watermark_image(self, path: String) -> (r: Self)
        ensures
            r == (FullBleedBuilder { watermark: r.watermark, ..self }),
            r.watermark matches Some(w) && w.kind == WatermarkKind::Image(path) && has_defaults(w),
    {
        FullBleedBuilder { watermark: Some(WatermarkSpec::image(path)), ..self }
    }

    /// Sets what is summed up over pages.
    pub fn paginated_context(self, spec: PaginatedContextSpec) -> (r: Self)
        ensures
            r == (FullBleedBuilder { paginated_context: Some(spec), ..self }),
    {
        FullBleedBuilder { paginated_context: Some(spec), ..self }
    }

    /// Sets how pages are bound to templates.
    pub fn template_binding_spec(self, spec: TemplateBindingSpec) -> (r: Self)
        ensures
            r == (FullBleedBuilder { template_binding_spec: Some(spec), ..self }),
    {
        FullBleedBuilder { template_binding_spec: Some(spec), ..self }
    }

    /// Sets the bundle of assets.
    pub fn register_bundle(self, bundle: AssetBundle) -> (r: Self)
        ensures
            r == (FullBleedBuilder { asset_bundle: bundle, ..self }),
    {
        FullBleedBuilder { asset_bundle: bundle, ..self }
    }

    /// Builds the engine, or says what keeps it from being built.
    pub fn build(self) -> (r: Result<FullBleed, FullBleedError>)
        ensures
            refuses(r, build_fault(self)),
            r matches Ok(engine) ==> has_settings(engine, self),
    {
        let lazy = match self.layout_strategy {
            LayoutStrategy::Lazy => true,
            LayoutStrategy::Eager => false,
        };
        if lazy && !self.accept_lazy_layout_cost {
            return Err(
                FullBleedError::InvalidConfiguration(
                    "layout_strategy=lazy requires accept_lazy_layout_cost(true)".to_owned(),
                ),
            );
        }
        if lazy && self.lazy_max_passes < 2 {
            return Err(
                FullBleedError::InvalidConfiguration(
                    "layout_strategy=lazy requires lazy_max_passes >= 2".to_owned(),
                ),
            );
        }
        let budget: u64 = self.lazy_budget_ms.bits;
        if lazy && !(0 < budget && budget < 0x7ff0_0000_0000_0000) {
            return Err(
                FullBleedError::InvalidConfiguration(
                    "layout_strategy=lazy requires lazy_budget_ms > 0".to_owned(),
                ),
            );
        }
        match validate_pdf_options(&self.pdf_options) {
            Err(e) => {
                return Err(e);
            },
            Ok(_) => {},
        }
        let perf_log = match self.perf_path {
            Some(path) => Some(path),
            None => if self.perf_enabled {
                Some("fullbleed_perf.log".to_owned())
            } else {
                None
            },
        };
        let asset_css = self.asset_bundle.css.clone();
        Ok(
            FullBleed {
                default_page_size: self.page_size,
                default_margins: self.margins,
                page_margins: self.page_margins,
                page_size_explicit: self.page_size_explicit,
                margins_explicit: self.margins_explicit,
                fonts: FontSources {
                    unicode_metrics: self.unicode_metrics,
                    dirs: self.font_dirs,
                    files: self.font_files,
                },
                pdf_options: self.pdf_options,
                svg_form_xobjects: self.svg_form_xobjects,
                svg_raster_fallback: self.svg_raster_fallback,
                debug_log: self.debug_path,
                perf_log,
                jit_mode: self.jit_mode,
                layout_strategy: self.layout_strategy,
                lazy_max_passes: self.lazy_max_passes,
                lazy_budget_ms: self.lazy_budget_ms,
                page_header: self.page_header,
                page_header_html: self.page_header_html,
                page_footer: self.page_footer,
                paginated_context: self.paginated_context,
                template_binding_spec: self.template_binding_spec,
                watermark: self.watermark,
                asset_css,
                asset_bundle: self.asset_bundle,
                render_context_cache: RenderContextCache::new(),
            },
        )
    }
}

impl Default for FullBleedBuilder {
    fn default() -> (r: Self)
        ensures
            is_fresh(r),
    {
        FullBleedBuilder::new()
    }
}

/// A text that may be missing.
pub open spec fn text_option(t: Option<&str>) -> Option<Seq<char>> {
    match t {
        Some(s) => Some(s@),
        None => None,
    }
}

/// A text that may be missing.
pub open spec fn string_option(t: Option<String>) -> Option<Seq<char>> {
    match t {
        Some(s) => Some(s@),
        None => None,
    }
}

// ---------------------------------------------------------------------------------------------
// The engine
// ---------------------------------------------------------------------------------------------
/// Where the engine finds its fonts, and how it measures them.
pub struct FontSources {
    pub unicode_metrics: bool,
    pub dirs: Vec<String>,
    pub files: Vec<String>,
}

/// The engine. Render contexts are kept by a number that the host gives them.
pub struct FullBleed {
    pub default_page_size: Size,
    pub default_margins: Margins,
    pub page_margins: MarginTable,
    pub page_size_explicit: bool,
    pub margins_explicit: bool,
    pub fonts: FontSources,
    pub pdf_options: PdfOptions,
    pub svg_form_xobjects: bool,
    pub svg_raster_fallback: bool,
    pub debug_log: Option<String>,
    pub perf_log: Option<String>,
    pub jit_mode: JitMode,
    pub layout_strategy: LayoutStrategy,
    pub lazy_max_passes: usize,
    pub lazy_budget_ms: Double,
    pub page_header: Option<PageHeaderSpec>,
    pub page_header_html: Option<PageHeaderHtmlSpec>,
    pub page_footer: Option<PageFooterSpec>,
    pub paginated_context: Option<PaginatedContextSpec>,
    pub template_binding_spec: Option<TemplateBindingSpec>,
    pub watermark: Option<WatermarkSpec>,
    pub asset_css: String,
    pub asset_bundle: AssetBundle,
    pub render_context_cache: RenderContextCache<u64>,
}

/// The path of the log of timings: the one that was set, else a default one where the log is on.
pub open spec fn perf_log_path(b: FullBleedBuilder) -> Option<Seq<char>> {
    match b.perf_path {
        Some(path) => Some(path@),
        None => if b.perf_enabled {
            Some("fullbleed_perf.log"@)
        } else {
            None
        },
    }
}

/// The engine has the settings of the builder.
pub open spec fn has_settings(e: FullBleed, b: FullBleedBuilder) -> bool {
    &&& e.default_page_size == b.page_size
    &&& e.default_margins == b.margins
    &&& e.page_margins == b.page_margins
    &&& e.page_size_explicit == b.page_size_explicit
    &&& e.margins_explicit == b.margins_explicit
    &&& e.fonts == (FontSources {
        unicode_metrics: b.unicode_metrics,
        dirs: b.font_dirs,
        files: b.font_files,
    })
    &&& e.pdf_options == b.pdf_options
    &&& e.svg_form_xobjects == b.svg_form_xobjects
    &&& e.svg_raster_fallback == b.svg_raster_fallback
    &&& e.debug_log == b.debug_path
    &&& string_option(e.perf_log) == perf_log_path(b)
    &&& e.jit_mode == b.jit_mode
    &&& e.layout_strategy == b.layout_strategy
    &&& e.lazy_max_passes == b.lazy_max_passes
    &&& e.lazy_budget_ms == b.lazy_budget_ms
    &&& e.page_header == b.page_header
    &&& e.page_header_html == b.page_header_html
    &&& e.page_footer == b.page_footer
    &&& e.paginated_context == b.paginated_context
    &&& e.template_binding_spec == b.template_binding_spec
    &&& e.watermark == b.watermark
    &&& e.asset_css@ == b.asset_bundle.css@
    &&& e.asset_bundle == b.asset_bundle
    &&& e.render_context_cache.is_valid()
    &&& e.render_context_cache.entries@.len() == 0
}

/// A builder with the default settings can be built.
pub proof fn fresh_builder_builds(b: FullBleedBuilder)
    requires
        is_fresh(b),
    ensures
        build_fault(b) is None,
{
}

/// An engine with eager layout does not look at the settings of lazy layout.
pub proof fn eager_layout_needs_no_consent(b: FullBleedBuilder)
    requires
        b.layout_strategy == LayoutStrategy::Eager,
    ensures
        build_fault(b) == option_fault(b.pdf_options),
{
}

/// The page numbers of a builder's margins start at one.
pub open spec fn pages_start_at_one(t: MarginTable) -> bool {
    t.entries@.len() > 0 ==> t.last_page() >= 1
}

/// Setting the margins of a page keeps page numbers starting at one.
pub proof fn page_margin_keeps_start(b: FullBleedBuilder, page: usize, r: FullBleedBuilder)
    requires
        pages_start_at_one(b.page_margins),
        page == 0 ==> r == b,
        page >= 1 ==> r.page_margins.last_page() == (if page > b.page_margins.last_page() {
            page as int
        } else {
            b.page_margins.last_page()
        }),
    ensures
        pages_start_at_one(r.page_margins),
{
}

} // verus!
