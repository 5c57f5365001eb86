use fullbleed::builder::{AssetBundle, FullBleed};
use fullbleed::caches::{GlyphSet, GlyphSource, RenderContextCache};
use fullbleed::command::{Command, Document, Page};
use fullbleed::compiled::{
    write_result, BindingJob, BindingProgram, CompiledDocument, JobError, ReflowTemplate, WriteOutcome,
};
use fullbleed::compose::{
    asset_warning_line, asset_warning_record, escape_html_text, escape_quotes, snippet_document,
};
use fullbleed::bindings::Column;
use fullbleed::documents::{
    count_commands, count_form_commands, document_target_pages, has_full_page_background,
    merge_background_commands, merge_documents, merge_overlay_commands, merge_results,
    FullBleedError,
};
use fullbleed::engine::layout_metrics;
use fullbleed::geometry::{Margins, Pt, Size};
use fullbleed::settings::{
    CompiledFlowCompression, CompiledReflowOptions, Double, JitMode, OutputIntent, PdfProfile,
};

fn milli(n: i64) -> Pt {
    Pt::from_milli_i64(n)
}

fn strings(list: &[&str]) -> Vec<String> {
    list.iter().map(|s| s.to_string()).collect()
}

fn draw(text: &str) -> Command {
    Command::DrawString { x: milli(0), y: milli(0), text: text.to_string() }
}

fn document(size: Size, pages: &[&[&str]]) -> Document {
    Document {
        page_size: size,
        pages: pages.iter().map(|p| Page { commands: p.iter().map(|t| draw(t)).collect() }).collect(),
    }
}

fn texts(doc: &Document) -> Vec<Vec<String>> {
    doc.pages
        .iter()
        .map(|p| {
            p.commands
                .iter()
                .filter_map(|c| match c {
                    Command::DrawString { text, .. } => Some(text.clone()),
                    _ => None,
                })
                .collect()
        })
        .collect()
}

#[test]
fn repeated_css_reuses_compiled_render_context() {
    let mut engine = FullBleed::builder().build().expect("engine");
    let css = "@page { size: letter; margin: 0.5in } body { color: #123456 }";
    assert_eq!(engine.kept_context(css), None);
    engine.keep_context(css, 11);
    let first = engine.kept_context(css);
    let second = engine.kept_context(css);

    assert_eq!(first, Some(11));
    assert_eq!(first, second);
    assert_eq!(engine.render_context_cache.entries.len(), 1);
    engine.keep_context(css, 12);
    assert_eq!(engine.kept_context(css), Some(11));
    assert_eq!(engine.render_context_cache.entries.len(), 1);
}

#[test]
fn the_oldest_render_context_leaves_first() {
    let mut cache: RenderContextCache<usize> = RenderContextCache::new();
    for i in 0..33 {
        cache.insert(format!("css-{i}"), i);
    }
    assert_eq!(cache.entries.len(), 32);
    assert_eq!(cache.get("css-0"), None);
    assert_eq!(cache.get("css-1"), Some(&1));
    assert_eq!(cache.get("css-32"), Some(&32));
}

#[test]
fn glyphs_are_reported_once() {
    let glyph = |gid: u16, text: &str| GlyphSource { gid, text: text.to_string() };
    let mut set = GlyphSet::new();
    let new = set.report(&vec![glyph(5, "a"), glyph(7, "b"), glyph(5, "c")]);
    let seen: Vec<(u16, &str)> = new.iter().map(|g| (g.gid, g.text.as_str())).collect();
    assert_eq!(seen, vec![(5, "a"), (7, "b")]);
    assert!(set.report(&vec![glyph(7, "x")]).is_empty());
    assert_eq!(set.report(&vec![glyph(65_535, "z")]).len(), 1);
}

#[test]
fn html_text_is_escaped() {
    assert_eq!(escape_html_text("a<b>&\"c'"), "a&lt;b&gt;&amp;&quot;c&#39;");
    assert_eq!(escape_html_text("plain text"), "plain text");
    assert_eq!(escape_html_text(""), "");
}

#[test]
fn documents_are_composed_around_a_body() {
    let plain = FullBleed::builder().build().expect("engine");
    assert_eq!(
        plain.compose_document_html("<p>x</p>"),
        "<!doctype html><html lang=\"en\"><head><meta charset=\"utf-8\" /><meta name=\"viewport\" \
         content=\"width=device-width, initial-scale=1\" /><title>fullbleed document</title></head>\
         <body><p>x</p></body></html>"
    );
    let engine = FullBleed::builder()
        .document_lang("de\"".to_string())
        .document_title("A & B".to_string())
        .build()
        .expect("engine");
    let html = engine.artifact_html("body", true);
    assert!(html.contains("<html lang=\"de&quot;\">"));
    assert!(html.contains("<title>A &amp; B</title>"));
    assert_eq!(engine.artifact_html("body", false), "body");
}

#[test]
fn style_sheets_of_assets_come_first() {
    let plain = FullBleed::builder().build().expect("engine");
    assert_eq!(plain.compose_artifact_css("p {}"), "p {}");
    assert_eq!(plain.compose_artifact_css(" "), " ");
    let engine = FullBleed::builder()
        .register_bundle(AssetBundle { css: "a {}".to_string(), handle: 0 })
        .build()
        .expect("engine");
    assert_eq!(engine.compose_artifact_css("p {}"), "a {}\n\np {}");
    assert_eq!(engine.merge_css(" \n\t"), "a {}");
}

#[test]
fn snippets_are_wrapped() {
    assert_eq!(
        snippet_document("<b>x</b>", false),
        "<!doctype html><html><body><b>x</b></body></html>"
    );
    assert_eq!(
        snippet_document("x", true),
        "<!doctype html><html><body style=\"background: transparent;\">x</body></html>"
    );
}

#[test]
fn warnings_show_three_details() {
    assert_eq!(asset_warning_line(2, "m", &Vec::new()), "[fullbleed][assets] doc 2: m");
    assert_eq!(
        asset_warning_line(0, "m", &strings(&["a", "b", "c"])),
        "[fullbleed][assets] doc 0: m (a, b, c)"
    );
    assert_eq!(
        asset_warning_line(0, "m", &strings(&["a", "b", "c", "d"])),
        "[fullbleed][assets] doc 0: m (a, b, c, ...)"
    );
    assert_eq!(
        asset_warning_record(1, "k", "say \"x\"", &strings(&["a\"", "b"])),
        "{\"type\":\"jit.html_asset_warning\",\"doc_id\":1,\"kind\":\"k\",\"message\":\"say \\\"x\\\"\",\
         \"details\":[\"a\\\"\",\"b\"]}"
    );
    assert_eq!(escape_quotes("no"), "no");
}

#[test]
fn documents_of_one_page_size_are_joined() {
    let merged =
        merge_documents(vec![document(Size::a4(), &[&["a"], &["b"]]), document(Size::a4(), &[&["c"]])])
            .expect("one page size");
    assert_eq!(texts(&merged), vec![vec!["a"], vec!["b"], vec!["c"]]);
    assert!(matches!(merge_documents(Vec::new()), Err(FullBleedError::EmptyDocumentSet)));
    let other = Size { width: milli(1), height: milli(1) };
    assert!(matches!(
        merge_documents(vec![document(Size::a4(), &[]), document(other, &[])]),
        Err(FullBleedError::InconsistentPageSize)
    ));
}

#[test]
fn the_first_refusal_stands_for_a_batch() {
    let good = || Ok(document(Size::a4(), &[&["a"]]));
    let merged = merge_results(false, vec![good(), good()], false).expect("a batch");
    assert_eq!(merged.pages.len(), 2);
    assert!(matches!(merge_results(true, vec![good()], false), Err(FullBleedError::Cancelled)));
    assert!(matches!(merge_results(false, vec![good()], true), Err(FullBleedError::Cancelled)));
    assert!(matches!(
        merge_results(
            false,
            vec![
                good(),
                Err(FullBleedError::MissingPageTemplate),
                Err(FullBleedError::EmptyDocumentSet)
            ],
            true
        ),
        Err(FullBleedError::MissingPageTemplate)
    ));
    assert!(matches!(merge_results(false, Vec::new(), false), Err(FullBleedError::EmptyDocumentSet)));
}

#[test]
fn layers_lie_over_and_under_a_document() {
    let mut base = document(Size::a4(), &[&["base"]]);
    merge_overlay_commands(&mut base, &document(Size::a4(), &[&["over"]]));
    merge_background_commands(&mut base, &document(Size::a4(), &[&["under"]]));
    assert_eq!(texts(&base), vec![vec!["under", "base", "over"]]);
    merge_overlay_commands(&mut base, &document(Size::a4(), &[&["x"], &["y"]]));
    assert_eq!(texts(&base), vec![vec!["under", "base", "over"]]);
}

#[test]
fn finishing_puts_layers_together_or_takes_the_painted_plan() {
    let over = Some(document(Size::a4(), &[&["over"]]));
    let under = Some(document(Size::a4(), &[&["under"]]));
    for mode in [JitMode::Off, JitMode::PlanOnly] {
        let engine = FullBleed::builder().jit_mode(mode).build().expect("engine");
        let done = engine.finalize_with_jit(document(Size::a4(), &[&["base"]]), &over, &under, None);
        assert_eq!(texts(&done), vec![vec!["under", "base", "over"]]);
    }
    let engine = FullBleed::builder().jit_mode(JitMode::PlanAndReplay).build().expect("engine");
    let painted = engine.finalize_with_jit(
        document(Size::a4(), &[&["base"]]),
        &over,
        &under,
        Some(document(Size::a4(), &[&["painted"]])),
    );
    assert_eq!(texts(&painted), vec![vec!["painted"]]);
}

#[test]
fn commands_and_forms_are_counted() {
    let form = |id: &str| Command::DefineForm {
        resource_id: id.to_string(),
        width: milli(1),
        height: milli(1),
        commands: Vec::new(),
    };
    let use_form = |id: &str| Command::DrawForm {
        x: milli(0),
        y: milli(0),
        width: milli(1),
        height: milli(1),
        resource_id: id.to_string(),
    };
    let doc = Document {
        page_size: Size::a4(),
        pages: vec![
            Page { commands: vec![form("svg:1"), form("hdr"), use_form("svg:1")] },
            Page {
                commands: vec![
                    use_form("hdr"),
                    Command::DrawFilteredForm { resource_id: "svg:1".to_string(), filter: 0 },
                ],
            },
        ],
    };
    assert_eq!(count_commands(&doc), 5);
    assert_eq!(count_form_commands(&doc), (2, 3, 1, 2));
}

#[test]
fn a_rectangle_near_the_page_size_is_a_background() {
    let page = Size { width: milli(100_000), height: milli(200_000) };
    let with_rect = |x: i64, y: i64, w: i64, h: i64| Document {
        page_size: page,
        pages: vec![Page {
            commands: vec![Command::DrawRect {
                x: milli(x),
                y: milli(y),
                width: milli(w),
                height: milli(h),
            }],
        }],
    };
    assert!(has_full_page_background(&with_rect(0, 0, 100_000, 200_000)));
    assert!(has_full_page_background(&with_rect(20_000, 20_000, 86_000, 171_000)));
    assert!(!has_full_page_background(&with_rect(21_000, 0, 100_000, 200_000)));
    assert!(!has_full_page_background(&with_rect(0, 0, 80_000, 200_000)));
    assert!(!has_full_page_background(&document(page, &[&["a"]])));
}

#[test]
fn targets_stand_on_their_first_page() {
    let note = |id: &str| Command::Meta { key: "fb.owner.id".to_string(), value: id.to_string() };
    let doc = Document {
        page_size: Size::a4(),
        pages: vec![
            Page { commands: vec![draw("x"), note("")] },
            Page {
                commands: vec![Command::DefineForm {
                    resource_id: "f".to_string(),
                    width: milli(1),
                    height: milli(1),
                    commands: vec![note("a")],
                }],
            },
            Page { commands: vec![note("a"), note("b")] },
        ],
    };
    let mut found = document_target_pages(&doc);
    found.sort();
    assert_eq!(found, vec![("a".to_string(), 2), ("b".to_string(), 3)]);
}

#[test]
fn metrics_start_with_the_counts_of_pages() {
    let m = layout_metrics(&document(Size::a4(), &[&["a", "b"], &[]]), Double { bits: 9 });
    assert_eq!(m.total_render_ms, Double { bits: 9 });
    assert_eq!(m.total_bytes, 0);
    assert_eq!(m.pages.len(), 2);
    assert_eq!((m.pages[0].page_number, m.pages[0].command_count), (1, 2));
    assert_eq!((m.pages[1].page_number, m.pages[1].command_count), (2, 0));
}

#[test]
fn a_second_engine_has_the_same_settings() {
    let mut engine = FullBleed::builder()
        .page_margin(2, Margins::all(milli(5)))
        .register_font_file("a.ttf".to_string())
        .pdf_profile(PdfProfile { name: "pdfx4".to_string(), requires_output_intent: true })
        .output_intent(OutputIntent {
            icc_profile: vec![1, 2],
            n_components: 4,
            identifier: "FOGRA39".to_string(),
        })
        .watermark_text("w".to_string())
        .document_lang("en".to_string())
        .build()
        .expect("engine");
    engine.keep_context("css", 1);
    let second = engine.clone_for_compiled_reflow();
    assert_eq!(second.page_margins.get(2), Some(Margins::all(milli(5))));
    assert_eq!(second.fonts.files, engine.fonts.files);
    assert_eq!(second.document_lang(), Some("en"));
    assert_eq!(second.pdf_options.output_intent.expect("an intent").icc_profile, vec![1, 2]);
    assert!(second.watermark.is_some());
    assert!(second.margins_explicit);
    assert!(second.render_context_cache.entries.is_empty());
    assert_eq!(engine.render_context_cache.entries.len(), 1);
}

fn template(slots: &[&str]) -> ReflowTemplate {
    ReflowTemplate {
        slot_names: strings(slots),
        node_count: 9,
        binding_text_node_count: 3,
        html_binding_node_count: 2,
    }
}

fn program(d: &Document, slots: &Vec<String>) -> Result<BindingProgram, String> {
    Ok(BindingProgram { page_count: d.pages.len(), command_count: slots.len() })
}

fn failing(_: &Document, _: &Vec<String>) -> Result<BindingProgram, String> {
    Err("no binding".to_string())
}

fn compile_document(
    document: Document,
    nanos: u128,
    template: Result<ReflowTemplate, String>,
    compile: fn(&Document, &Vec<String>) -> Result<BindingProgram, String>,
) -> CompiledDocument {
    let engine = FullBleed::builder().document_title("T".to_string()).build().expect("engine");
    engine.compile_document(document, nanos, template, compile)
}

fn column(slot: &str, values: &[&str]) -> Column {
    Column { slot: slot.to_string(), values: strings(values) }
}

#[test]
fn compiled_documents_know_their_slots() {
    let doc = document(Size::a4(), &[&["{{b}}"], &["{{a}} {{b}}", "x"]]);
    let compiled = compile_document(doc, 1_500, Ok(template(&["a", "b", "c"])), program);
    assert_eq!(compiled.page_count(), 2);
    assert_eq!(compiled.command_count(), 3);
    assert_eq!(compiled.compile_nanos, 1_500);
    assert_eq!(compiled.binding_slots(), strings(&["a", "b"]));
    assert_eq!(compiled.binding_program_page_count(), 2);
    assert_eq!(compiled.binding_program_command_count(), 2);
    assert_eq!(compiled.reflow_binding_slots(), strings(&["a", "b", "c"]));
    assert_eq!(compiled.reflow_program_node_count(), 9);
    assert_eq!(compiled.reflow_program_binding_text_node_count(), 3);
    assert_eq!(compiled.reflow_program_html_binding_node_count(), 2);
    assert!(compiled.reflow_program_ready());
    assert!(compiled.reflow_program_error().is_none());
    assert!(matches!(compiled.check_copies(0), Err(FullBleedError::EmptyDocumentSet)));
    assert!(matches!(compiled.check_copies(3), Ok(3)));
    let late = compile_document(document(Size::a4(), &[]), u128::MAX, Ok(template(&[])), program);
    assert_eq!(late.compile_nanos, u64::MAX);
    assert!(late.binding_plan.is_none());
    assert!(!late.reflow_program_ready());
    assert!(late.reflow_binding_slots().is_empty());
}

#[test]
fn bindings_are_prepared_or_refused() {
    let doc = || document(Size::a4(), &[&["{{a}}"]]);
    let good = compile_document(doc(), 0, Ok(template(&[])), program);
    let job = good.binding_job(&vec![column("a", &["1", "2"])]).expect("a job");
    assert_eq!(job.record_count, 2);
    assert_eq!(job.order, vec![0]);
    assert_eq!(job.estimated_bytes, 2 * 512 + 64 * 1024);
    let refused = compile_document(doc(), 0, Ok(template(&[])), failing);
    assert!(matches!(
        refused.binding_job(&vec![column("a", &["1"])]),
        Err(FullBleedError::InvalidConfiguration(t)) if t == "no binding"
    ));
    assert_eq!(refused.binding_program_page_count(), 0);
    let none = compile_document(document(Size::a4(), &[]), 0, Ok(template(&[])), program);
    assert!(matches!(
        none.binding_job(&Vec::new()),
        Err(FullBleedError::InvalidConfiguration(t))
            if t == "compiled document has no page-local {{slot}} text bindings"
    ));
}

#[test]
fn reflows_are_prepared_or_refused() {
    let doc = || document(Size::a4(), &[&["x"]]);
    let options = CompiledReflowOptions { compression: CompiledFlowCompression::Compact };
    let columns = || vec![column("name", &["Ada", "Grace"])];
    let compiled = compile_document(doc(), 0, Ok(template(&["name"])), program);
    let job =
        compiled.reflow_job(&columns(), options, false, Some(Size::a4())).expect("a reflow job");
    assert_eq!(job.job.record_count, 2);
    assert_eq!(job.job.estimated_bytes, 2 * 4096 + 64 * 1024);
    assert_eq!(job.page_size, Size::a4());
    assert_eq!(job.pdf_options.compression, CompiledFlowCompression::Compact);
    assert_eq!(job.pdf_options.document_title.as_deref(), Some("T"));
    assert_eq!(compiled.pdf_options.compression, CompiledFlowCompression::Throughput);
    assert!(matches!(
        compiled.reflow_job(&columns(), CompiledReflowOptions::default(), true, Some(Size::a4())),
        Err(FullBleedError::Cancelled)
    ));
    assert!(matches!(
        compiled.reflow_job(&columns(), options, false, None),
        Err(FullBleedError::MissingPageTemplate)
    ));
    assert!(matches!(
        compiled.reflow_job(&vec![column("name", &[])], options, false, Some(Size::a4())),
        Err(FullBleedError::EmptyDocumentSet)
    ));
    let broken = compile_document(doc(), 0, Err("bad slot".to_string()), program);
    assert_eq!(broken.reflow_program_error(), Some("bad slot"));
    assert!(matches!(
        broken.reflow_job(&columns(), options, false, Some(Size::a4())),
        Err(FullBleedError::InvalidConfiguration(t)) if t == "bad slot"
    ));
    let none = compile_document(doc(), 0, Ok(template(&[])), program);
    assert!(matches!(
        none.compiled_reflow_plan(),
        Err(FullBleedError::InvalidConfiguration(t))
            if t == "compiled document has no reflow-capable {{slot}} text bindings"
    ));
}

#[test]
fn batch_rendering_apis_honor_pre_cancelled_tokens() {
    let engine = FullBleed::builder().build().expect("engine");
    let compiled = engine.compile_document(
        document(
            Size { width: milli(180_000), height: milli(120_000) },
            &[&["{{name}}", "Cancellation contract"]],
        ),
        0,
        Ok(template(&["name"])),
        program,
    );
    let bindings = vec![column("name", &["Ada", "Grace"])];
    let cancelled = true;

    let write = |_: &BindingJob| -> WriteOutcome<()> {
        if cancelled {
            WriteOutcome::Interrupted
        } else {
            WriteOutcome::Done(1)
        }
    };
    assert!(matches!(
        compiled.render_bindings(&bindings, write),
        Err(JobError::Refused(FullBleedError::Cancelled))
    ));
    assert!(matches!(
        compiled.reflow_job(
            &bindings,
            CompiledReflowOptions::default(),
            cancelled,
            Some(compiled.document.page_size),
        ),
        Err(FullBleedError::Cancelled)
    ));
    assert!(matches!(
        merge_results(cancelled, vec![Ok(document(Size::a4(), &[&["One"]]))], false),
        Err(FullBleedError::Cancelled)
    ));
}

#[test]
fn records_are_written_into_the_pages() {
    let doc = || document(Size::a4(), &[&["{{a}} {{b}}"]]);
    let compiled = compile_document(doc(), 0, Ok(template(&[])), program);
    let columns = vec![column("b", &["1", "2"]), column("a", &["3", "4"])];
    let write = |job: &BindingJob| -> WriteOutcome<&str> {
        assert_eq!(job.order, vec![1, 0]);
        WriteOutcome::Done(job.record_count * 100)
    };
    assert!(matches!(compiled.render_bindings(&columns, write), Ok(200)));
    assert!(matches!(
        compiled.render_bindings(&columns, |_: &BindingJob| WriteOutcome::Failed("disk")),
        Err(JobError::Failed("disk"))
    ));
    let untouched = |_: &BindingJob| -> WriteOutcome<()> { panic!("nothing to write") };
    assert!(matches!(
        compiled.render_bindings(&Vec::new(), untouched),
        Err(JobError::Refused(FullBleedError::InvalidConfiguration(_)))
    ));
    let refused = compile_document(doc(), 0, Ok(template(&[])), failing);
    assert!(matches!(
        refused.render_bindings(&columns, untouched),
        Err(JobError::Refused(FullBleedError::InvalidConfiguration(t))) if t == "no binding"
    ));
    assert!(matches!(write_result::<()>(WriteOutcome::Done(5)), Ok(5)));
}
