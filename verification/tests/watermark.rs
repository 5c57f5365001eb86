use fullbleed::builder::FullBleed;
use fullbleed::command::{Command, Document, Page};
use fullbleed::geometry::{Color, Pt, Real, Size};
use fullbleed::overlay::{
    PageFooterSpec, PageHeaderSpec, RenderedSnippet, WatermarkLayer, WatermarkSemantics, WatermarkSpec,
};
use fullbleed::watermark::{
    build_watermark_commands, build_watermark_document, draw_layers, watermark_image_size,
    OverlayParts, WatermarkContent, WatermarkPages,
    WATERMARK_OCG_RESOURCE_NAME,
};

fn pt(v: f64) -> Pt {
    Pt::from_milli_i64((v * 1000.0).round() as i64)
}

fn single(v: f32) -> Real {
    Real { bits: v.to_bits() }
}

fn empty_document(page_count: usize) -> Document {
    Document {
        page_size: Size::a4(),
        pages: (0..page_count).map(|_| Page { commands: Vec::new() }).collect(),
    }
}

fn text_content(text: &str) -> WatermarkContent {
    WatermarkContent::Text { rendered: text.to_string(), width: pt(100.0) }
}

#[test]
fn watermark_ocg_semantics_wrap_commands() {
    let mut spec = WatermarkSpec::text("CONFIDENTIAL".to_string());
    spec.semantics = WatermarkSemantics::Ocg;
    let commands =
        build_watermark_commands(&spec, Size::a4(), single(0.0), &text_content("CONFIDENTIAL"));
    assert!(matches!(
        commands.first(),
        Some(Command::BeginOptionalContent { name }) if name == WATERMARK_OCG_RESOURCE_NAME
    ));
    assert!(matches!(
        commands.get(1),
        Some(Command::BeginArtifact { subtype: Some(subtype) }) if subtype == "Watermark"
    ));
    assert!(matches!(commands.iter().rev().nth(1), Some(Command::EndMarkedContent)));
    assert!(matches!(commands.last(), Some(Command::EndMarkedContent)));
}

#[test]
fn watermark_text_applies_to_each_page() {
    let base = empty_document(3);
    let spec = WatermarkSpec::text("CONFIDENTIAL".to_string());
    let wm = build_watermark_document(
        &base,
        &WatermarkPages {
            spec,
            angle: single(0.0),
            contents: (0..3).map(|_| text_content("CONFIDENTIAL")).collect(),
        },
    );

    assert_eq!(wm.pages.len(), 3);
    for page in &wm.pages {
        assert!(page
            .commands
            .iter()
            .any(|cmd| matches!(cmd, Command::DrawString { text, .. } if text == "CONFIDENTIAL")));
    }
}

#[test]
fn watermark_image_applies_to_each_page() {
    let base = empty_document(4);
    let image_source = "examples/img/full_bleed-logo_small.png".to_string();
    let spec = WatermarkSpec::image(image_source.clone());
    let wm = build_watermark_document(
        &base,
        &WatermarkPages {
            spec,
            angle: single(0.0),
            contents: (0..4)
                .map(|_| WatermarkContent::Image { source: image_source.clone(), size: None })
                .collect(),
        },
    );

    assert_eq!(wm.pages.len(), 4);
    for page in &wm.pages {
        assert!(page.commands.iter().any(|cmd| {
            matches!(cmd, Command::DrawImage { resource_id, .. } if resource_id == &image_source)
        }));
    }
}

#[test]
fn watermark_text_uses_transform_compatible_y_coordinate() {
    let spec = WatermarkSpec::text("WM".to_string());
    let page_size = Size::a4();
    let commands = build_watermark_commands(&spec, page_size, single(0.0), &text_content("WM"));

    let draw = commands.iter().find_map(|cmd| match cmd {
        Command::DrawString { x, y, text } => Some((*x, *y, text.as_str())),
        _ => None,
    });
    let (_x, y, text) = draw.expect("expected DrawString command");
    assert_eq!(text, "WM");
    assert_eq!(y, page_size.height.minus(spec.font_size.mul_ratio(1, 2)));
}

#[test]
fn watermark_image_uses_transform_compatible_y_coordinate() {
    let spec = WatermarkSpec::image("missing-watermark-image.png".to_string());
    let page_size = Size::a4();
    let commands = build_watermark_commands(
        &spec,
        page_size,
        single(0.0),
        &WatermarkContent::Image { source: "missing-watermark-image.png".to_string(), size: None },
    );

    let draw = commands.iter().find_map(|cmd| match cmd {
        Command::DrawImage { y, height, .. } => Some((*y, *height)),
        _ => None,
    });
    let (y, height) = draw.expect("expected DrawImage command");
    assert_eq!(y, page_size.height.minus(height));
}

fn balance(commands: &[Command]) -> (i32, i32) {
    let mut state = 0;
    let mut marked = 0;
    for c in commands {
        match c {
            Command::SaveState => state += 1,
            Command::RestoreState => state -= 1,
            Command::BeginArtifact { .. } | Command::BeginOptionalContent { .. } => marked += 1,
            Command::EndMarkedContent => marked -= 1,
            _ => {}
        }
    }
    (state, marked)
}

#[test]
fn watermarks_close_what_they_open() {
    for semantics in
        [WatermarkSemantics::Visual, WatermarkSemantics::Artifact, WatermarkSemantics::Ocg]
    {
        let mut spec = WatermarkSpec::html("<b>x</b>".to_string());
        spec.semantics = semantics;
        let content =
            WatermarkContent::Html { form_id: "wm-1".to_string(), commands: Vec::new() };
        let commands = build_watermark_commands(&spec, Size::a4(), single(0.5), &content);
        assert_eq!(balance(&commands), (0, 0));
        assert!(commands.iter().any(|c| matches!(c, Command::Rotate(a) if *a == single(0.5))));
    }
}

#[test]
fn a_watermark_without_an_angle_is_not_turned() {
    let spec = WatermarkSpec::text("WM".to_string());
    for angle in [0.0f32, -0.0, f32::EPSILON, f32::NAN] {
        let commands =
            build_watermark_commands(&spec, Size::a4(), single(angle), &text_content("WM"));
        assert!(!commands.iter().any(|c| matches!(c, Command::Rotate(_))));
    }
}

#[test]
fn watermark_images_fit_the_page() {
    let page = Size { width: pt(200.0), height: pt(400.0) };
    assert_eq!(watermark_image_size(0, 10, page), None);
    assert_eq!(watermark_image_size(10, 0, page), None);
    assert_eq!(
        watermark_image_size(100, 100, page),
        Some(Size { width: pt(70.0), height: pt(70.0) })
    );
    assert_eq!(
        watermark_image_size(100, 400, page),
        Some(Size { width: pt(35.0), height: pt(140.0) })
    );
}

fn footer() -> PageFooterSpec {
    PageFooterSpec {
        first: None,
        each: Some("f".to_string()),
        last: None,
        font_name: "Helvetica".to_string(),
        font_size: pt(8.0),
        color: Color { r: single(0.0), g: single(0.0), b: single(0.0) },
        x: pt(1.0),
        y_from_bottom: pt(10.0),
    }
}

fn header() -> PageHeaderSpec {
    PageHeaderSpec {
        first: None,
        each: Some("h".to_string()),
        last: None,
        font_name: "Helvetica".to_string(),
        font_size: pt(8.0),
        color: Color { r: single(0.0), g: single(0.0), b: single(0.0) },
        x: pt(1.0),
        y_from_top: pt(10.0),
    }
}

fn drawn(page: &Page) -> Vec<String> {
    page.commands
        .iter()
        .filter_map(|c| match c {
            Command::DrawString { text, .. } => Some(text.clone()),
            _ => None,
        })
        .collect()
}

#[test]
fn overlays_draw_watermark_header_and_footer_in_order() {
    let base = empty_document(1);
    let parts = OverlayParts {
        watermark: Some(WatermarkPages {
            spec: WatermarkSpec::text("w".to_string()),
            angle: single(0.0),
            contents: vec![text_content("w")],
        }),
        header_html: None,
        header: Some((header(), vec![Some("h".to_string())])),
        footer: Some((footer(), vec![Some("f".to_string())])),
    };
    let (over, under) = draw_layers(&base, &parts);
    assert_eq!(drawn(&over.expect("an overlay").pages[0]), ["w", "h", "f"]);
    assert!(under.is_none());
}

#[test]
fn background_watermarks_rise_above_page_backgrounds() {
    let mut spec = WatermarkSpec::text("w".to_string());
    spec.layer = WatermarkLayer::Background;
    let parts = OverlayParts {
        watermark: Some(WatermarkPages {
            spec,
            angle: single(0.0),
            contents: vec![text_content("w")],
        }),
        header_html: None,
        header: None,
        footer: None,
    };
    let (over, under) = draw_layers(&empty_document(1), &parts);
    assert!(over.is_none());
    assert_eq!(drawn(&under.expect("a background").pages[0]), ["w"]);

    let mut covered = empty_document(1);
    covered.pages[0].commands.push(Command::DrawRect {
        x: Pt::zero(),
        y: Pt::zero(),
        width: covered.page_size.width,
        height: covered.page_size.height,
    });
    let (over, under) = draw_layers(&covered, &parts);
    assert_eq!(drawn(&over.expect("an overlay").pages[0]), ["w"]);
    assert!(under.is_none());
}

#[test]
fn the_engine_lays_its_own_parts_over_each_page() {
    let black = Color { r: single(0.0), g: single(0.0), b: single(0.0) };
    let engine = FullBleed::builder()
        .watermark_text("w{page}".to_string())
        .page_header(
            None,
            Some("h{page}".to_string()),
            None,
            pt(1.0),
            pt(2.0),
            "Helvetica".to_string(),
            pt(8.0),
            black,
        )
        .page_footer(
            Some("first".to_string()),
            None,
            Some("last".to_string()),
            pt(1.0),
            pt(2.0),
            "Helvetica".to_string(),
            pt(8.0),
            black,
        )
        .build()
        .expect("engine");
    let number = |t: &str, page: usize, _: usize| t.replace("{page}", &page.to_string());
    let content = |_: &WatermarkSpec, page: usize, total: usize| WatermarkContent::Text {
        rendered: format!("w{page}/{total}"),
        width: pt(10.0),
    };
    let form = |t: &str, s: &str, _: usize, _: usize| RenderedSnippet {
        form_id: format!("{t}>{s}"),
        commands: Vec::new(),
    };
    let (over, under) =
        engine.build_overlay_documents(&empty_document(3), single(0.0), content, number, form);
    let over = over.expect("an overlay");
    assert_eq!(drawn(&over.pages[0]), ["w1/3", "first"]);
    assert_eq!(drawn(&over.pages[1]), ["w2/3", "h2"]);
    assert_eq!(drawn(&over.pages[2]), ["w3/3", "h3", "last"]);
    assert!(under.is_none());

    let html = FullBleed::builder()
        .page_header_html(None, Some("x{page}".to_string()), None, pt(0.0), pt(0.0), pt(9.0), pt(9.0))
        .page_header(
            Some("line".to_string()),
            None,
            None,
            pt(1.0),
            pt(2.0),
            "Helvetica".to_string(),
            pt(8.0),
            black,
        )
        .build()
        .expect("engine");
    let (over, _) =
        html.build_overlay_documents(&empty_document(2), single(0.0), content, number, form);
    let over = over.expect("an overlay");
    assert!(over.pages[0].commands.is_empty());
    assert!(matches!(
        over.pages[1].commands.first(),
        Some(Command::DefineForm { resource_id, .. }) if resource_id == "x{page}>x2"
    ));
    let bare = FullBleed::builder().build().expect("engine");
    let (over, under) =
        bare.build_overlay_documents(&empty_document(2), single(0.0), content, number, form);
    assert!(over.is_none() && under.is_none());
}
