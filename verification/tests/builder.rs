use fullbleed::builder::{AssetBundle, FullBleed, FullBleedBuilder};
use fullbleed::documents::FullBleedError;
use fullbleed::geometry::{Margins, Pt, Size};
use fullbleed::layout::LayoutStrategy;
use fullbleed::overlay::{WatermarkKind, WatermarkSemantics};
use fullbleed::settings::{
    jit_mode_str, pdf_version_str, ColorSpace, Double, JitMode, OutputIntent, PdfProfile, PdfVersion,
};

fn double(v: f64) -> Double {
    Double { bits: v.to_bits() }
}

fn pdf_x4() -> PdfProfile {
    PdfProfile { name: "pdfx4".to_string(), requires_output_intent: true }
}

fn message(err: &FullBleedError) -> String {
    match err {
        FullBleedError::InvalidConfiguration(text) => text.clone(),
        _ => String::new(),
    }
}

fn refused(builder: FullBleedBuilder) -> FullBleedError {
    match builder.build() {
        Ok(_) => panic!("the settings should be refused"),
        Err(err) => err,
    }
}

fn intent(icc: &[u8], n: u8, identifier: &str) -> OutputIntent {
    OutputIntent { icc_profile: icc.to_vec(), n_components: n, identifier: identifier.to_string() }
}

#[test]
fn pdfx4_builder_requires_output_intent() {
    let err = refused(FullBleed::builder().pdf_profile(pdf_x4()));
    assert!(matches!(err, FullBleedError::InvalidConfiguration(_)));
    assert!(message(&err).contains("output_intent"));
}

#[test]
fn lazy_layout_requires_explicit_cost_acceptance() {
    let err = refused(FullBleed::builder().layout_strategy(LayoutStrategy::Lazy));
    assert!(matches!(err, FullBleedError::InvalidConfiguration(_)));
    assert!(message(&err).contains("accept_lazy_layout_cost"));
}

#[test]
fn lazy_layout_limits_are_validated() {
    let err = refused(
        FullBleed::builder()
            .layout_strategy(LayoutStrategy::Lazy)
            .accept_lazy_layout_cost(true)
            .lazy_layout_limits(1, double(50.0)),
    );
    assert!(matches!(err, FullBleedError::InvalidConfiguration(_)));
    assert!(message(&err).contains("lazy_max_passes"));

    let err = refused(
        FullBleed::builder()
            .layout_strategy(LayoutStrategy::Lazy)
            .accept_lazy_layout_cost(true)
            .lazy_layout_limits(4, double(0.0)),
    );
    assert!(matches!(err, FullBleedError::InvalidConfiguration(_)));
    assert!(message(&err).contains("lazy_budget_ms"));
}

#[test]
fn lazy_layout_configuration_builds_with_opt_in() {
    FullBleed::builder()
        .layout_strategy(LayoutStrategy::Lazy)
        .accept_lazy_layout_cost(true)
        .lazy_layout_limits(4, double(50.0))
        .build()
        .expect("valid lazy config should build");
}

#[test]
fn lazy_budgets_must_be_finite_and_positive() {
    for bad in [f64::NAN, f64::INFINITY, f64::NEG_INFINITY, -1.0, -0.0, 0.0, -f64::NAN] {
        let err = refused(
            FullBleed::builder()
                .lazy_layout(true)
                .accept_lazy_layout_cost(true)
                .lazy_layout_limits(2, double(bad)),
        );
        assert_eq!(message(&err), "layout_strategy=lazy requires lazy_budget_ms > 0");
    }
    for good in [f64::MIN_POSITIVE, 5e-324, 1.0, f64::MAX] {
        let engine = FullBleed::builder()
            .lazy_layout(true)
            .accept_lazy_layout_cost(true)
            .lazy_layout_limits(2, double(good))
            .build()
            .expect("a positive budget");
        assert_eq!(engine.lazy_budget_ms, double(good));
    }
}

#[test]
fn eager_layout_ignores_the_limits_of_lazy_layout() {
    let engine = FullBleed::builder()
        .lazy_layout_limits(0, double(f64::NAN))
        .build()
        .expect("eager layout needs no limits");
    assert_eq!(engine.layout_strategy, LayoutStrategy::Eager);
}

#[test]
fn output_intents_are_validated_in_order() {
    let build = |i: OutputIntent| FullBleed::builder().pdf_profile(pdf_x4()).output_intent(i);
    assert_eq!(
        message(&refused(build(intent(&[], 9, "")))),
        "output_intent ICC profile cannot be empty"
    );
    assert_eq!(
        message(&refused(build(intent(&[1], 2, "")))),
        "output_intent n_components must be one of 1, 3, or 4 (got 2)"
    );
    assert_eq!(
        message(&refused(build(intent(&[1], 4, " \t ")))),
        "output_intent identifier cannot be empty"
    );
    assert_eq!(
        message(&refused(build(intent(&[1], 4, "FOGRA39")).clear_output_intent())),
        "pdf_profile=pdfx4 requires output_intent"
    );
    for n in [1, 3, 4] {
        build(intent(&[1], n, "FOGRA39")).build().expect("a whole output intent");
    }
    FullBleed::builder().output_intent(intent(&[], 0, "")).build().expect("no profile asks for it");
}

#[test]
fn a_fresh_builder_has_the_default_settings() {
    let engine = FullBleedBuilder::default().build().expect("default settings");
    assert_eq!(engine.default_page_size, Size::a4());
    assert_eq!(engine.default_margins, Margins::all(Pt::from_milli_i64(36_000)));
    assert!(!engine.page_size_explicit);
    assert!(!engine.margins_explicit);
    assert_eq!(engine.lazy_max_passes, 4);
    assert_eq!(engine.lazy_budget_ms, double(50.0));
    assert_eq!(engine.jit_mode, JitMode::Off);
    assert!(engine.fonts.unicode_metrics);
    assert!(engine.pdf_options.reuse_xobjects);
    assert_eq!(engine.pdf_options.pdf_version, PdfVersion::Pdf17);
    assert!(engine.perf_log.is_none());
    assert!(engine.watermark.is_none());
}

#[test]
fn settings_reach_the_engine() {
    let size = Size { width: Pt::from_milli_i64(1), height: Pt::from_milli_i64(2) };
    let engine = FullBleed::builder()
        .page_size(size)
        .margin_all(Pt::from_milli_i64(5))
        .svg_form_xobjects(true)
        .svg_raster_fallback(true)
        .register_font_dir("fonts".to_string())
        .register_font_file("a.ttf".to_string())
        .register_font_file("b.ttf".to_string())
        .reuse_xobjects(false)
        .unicode_support(false)
        .shape_text(false)
        .unicode_metrics(false)
        .jit_mode(JitMode::PlanOnly)
        .pdf_version(PdfVersion::Pdf20)
        .color_space(ColorSpace::Cmyk)
        .document_lang("de".to_string())
        .document_title("Titel".to_string())
        .debug_log("debug.jsonl".to_string())
        .register_bundle(AssetBundle { css: "p {}".to_string(), handle: 7 })
        .build()
        .expect("settings");
    assert_eq!(engine.default_page_size, size);
    assert!(engine.page_size_explicit && engine.margins_explicit);
    assert_eq!(engine.default_margins, Margins::all(Pt::from_milli_i64(5)));
    assert!(engine.svg_form_xobjects && engine.svg_raster_fallback);
    assert_eq!(engine.fonts.dirs, vec!["fonts".to_string()]);
    assert_eq!(engine.fonts.files, vec!["a.ttf".to_string(), "b.ttf".to_string()]);
    assert!(!engine.fonts.unicode_metrics);
    assert!(!engine.pdf_options.reuse_xobjects);
    assert!(!engine.pdf_options.unicode_support);
    assert!(!engine.pdf_options.shape_text);
    assert_eq!(engine.jit_mode, JitMode::PlanOnly);
    assert_eq!(engine.pdf_options.pdf_version, PdfVersion::Pdf20);
    assert_eq!(engine.pdf_options.color_space, ColorSpace::Cmyk);
    assert_eq!(engine.document_lang(), Some("de"));
    assert_eq!(engine.document_title(), Some("Titel"));
    assert_eq!(engine.debug_log.as_deref(), Some("debug.jsonl"));
    assert_eq!(engine.asset_css, "p {}");
    assert_eq!(engine.asset_bundle.handle, 7);
}

#[test]
fn metadata_can_be_read_back_and_removed() {
    let builder = FullBleed::builder()
        .document_lang("en-US".to_string())
        .document_title("Statement".to_string());
    assert_eq!(builder.document_lang_value(), Some("en-US"));
    assert_eq!(builder.document_title_value(), Some("Statement"));
    let builder = builder.clear_document_lang().clear_document_title();
    assert_eq!(builder.document_lang_value(), None);
    assert_eq!(builder.document_title_value(), None);
}

#[test]
fn the_log_of_timings_has_a_default_path() {
    let on = FullBleed::builder().perf_enabled(true).build().expect("on");
    assert_eq!(on.perf_log.as_deref(), Some("fullbleed_perf.log"));
    let set = FullBleed::builder()
        .perf_log("x.jsonl".to_string())
        .perf_enabled(false)
        .build()
        .expect("set");
    assert_eq!(set.perf_log.as_deref(), Some("x.jsonl"));
}

#[test]
fn page_margins_are_set_by_page_number() {
    let margins = |n: i64| Margins::all(Pt::from_milli_i64(n));
    let builder = FullBleed::builder().page_margin(0, margins(1));
    assert!(!builder.margins_explicit);
    let builder = builder.page_margin(3, margins(3)).page_margin(1, margins(1)).page_margin(3, margins(4));
    assert!(builder.margins_explicit);
    assert_eq!(builder.page_margins.get(1), Some(margins(1)));
    assert_eq!(builder.page_margins.get(2), None);
    assert_eq!(builder.page_margins.get(3), Some(margins(4)));
    assert_eq!(builder.page_margins.max_page(), 3);
}

#[test]
fn watermark_semantics_need_a_watermark() {
    let none = FullBleed::builder().watermark_semantics(WatermarkSemantics::Ocg);
    assert!(none.watermark.is_none());
    let some = FullBleed::builder()
        .watermark_text("DRAFT".to_string())
        .watermark_semantics(WatermarkSemantics::Ocg);
    let spec = some.watermark.expect("a watermark");
    assert_eq!(spec.semantics, WatermarkSemantics::Ocg);
    assert!(matches!(&spec.kind, WatermarkKind::Text(t) if t == "DRAFT"));
    let image = FullBleed::builder().watermark_html("<b>".to_string()).watermark_image("a.png".to_string());
    assert!(matches!(&image.watermark.expect("an image").kind, WatermarkKind::Image(p) if p == "a.png"));
}

#[test]
fn settings_have_names() {
    assert_eq!(jit_mode_str(JitMode::Off), "off");
    assert_eq!(jit_mode_str(JitMode::PlanOnly), "plan");
    assert_eq!(jit_mode_str(JitMode::PlanAndReplay), "replay");
    assert_eq!(pdf_version_str(PdfVersion::Pdf17), "1.7");
    assert_eq!(pdf_version_str(PdfVersion::Pdf20), "2.0");
}
