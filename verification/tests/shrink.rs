use fullbleed::command::{Command, Document, Page};
use fullbleed::fragments::apply_html_page_shrink_to_fit;
use fullbleed::geometry::{Color, Pt, Ratio, Real, Rect, Size};
use fullbleed::shrink::{
    META_DIAGNOSTIC_SCOPE_BEGIN_KEY, META_DIAGNOSTIC_SCOPE_END_KEY, META_HTML_CANVAS_BACKGROUND_KEY,
    META_HTML_PAGE_AREA_KEY, META_HTML_SCROLLABLE_BOTTOM_KEY, META_HTML_SCROLLABLE_RIGHT_KEY,
    META_HTML_SCROLLABLE_TOP_KEY, META_OWNER_PATH_KEY, META_PAGE_SIZE_KEY, META_PAGE_TEMPLATE_KEY,
};

fn pt(v: f64) -> Pt {
    Pt::from_milli_i64((v * 1000.0).round() as i64)
}

fn rgb(r: f32, g: f32, b: f32) -> Color {
    Color {
        r: Real { bits: r.to_bits() },
        g: Real { bits: g.to_bits() },
        b: Real { bits: b.to_bits() },
    }
}

fn number(r: &Ratio) -> f64 {
    r.num as f64 / r.den as f64
}

fn meta(key: &str, value: &str) -> Command {
    Command::Meta { key: key.to_string(), value: value.to_string() }
}

fn length(p: Pt) -> String {
    p.to_milli_i64().to_string()
}

fn area_meta(area: Rect) -> Command {
    meta(
        META_HTML_PAGE_AREA_KEY,
        &format!(
            "{},{},{},{}",
            area.x.to_milli_i64(),
            area.y.to_milli_i64(),
            area.width.to_milli_i64(),
            area.height.to_milli_i64(),
        ),
    )
}

fn rect(x: f64, y: f64, width: f64, height: f64) -> Rect {
    Rect { x: pt(x), y: pt(y), width: pt(width), height: pt(height) }
}

fn tag(role: &str) -> Command {
    Command::BeginTag {
        role: role.to_string(),
        mcid: Some(0),
        alt: None,
        scope: None,
        table_id: None,
        col_index: None,
        group_only: false,
    }
}

fn scale_of(page: &Page) -> Option<(f64, f64)> {
    page.commands.iter().find_map(|command| match command {
        Command::Scale(x, y) => Some((number(x), number(y))),
        _ => None,
    })
}

#[test]
fn html_page_shrink_uses_scrollable_right_edge() {
    let page_width = pt(252.0);
    let overflow_right = pt(255.0);
    let mut doc = Document {
        page_size: Size { width: page_width, height: pt(72.0) },
        pages: vec![Page {
            commands: vec![meta(META_HTML_SCROLLABLE_RIGHT_KEY, &length(overflow_right))],
        }],
    };

    apply_html_page_shrink_to_fit(&mut doc);

    let (scale_x, scale_y) = scale_of(&doc.pages[0]).expect("expected a page shrink transform");
    let expected = 252.0 / 255.0;
    assert!((scale_x - expected).abs() < 1.0e-6);
    assert!((scale_y - expected).abs() < 1.0e-6);
}

#[test]
fn html_page_shrink_anchors_to_page_area_and_preserves_template_paint() {
    let page_size = Size { width: pt(144.0), height: pt(150.0) };
    let page_area = rect(24.0, 12.0, 114.0, 132.0);
    let overflow_right = pt(143.0);
    let template_color = rgb(1.0, 0.0, 0.0);
    let mut doc = Document {
        page_size,
        pages: vec![Page {
            commands: vec![
                Command::SetFillColor(template_color),
                Command::DrawRect {
                    x: Pt::zero(),
                    y: Pt::zero(),
                    width: page_size.width,
                    height: page_size.height,
                },
                meta(META_PAGE_TEMPLATE_KEY, "Right"),
                area_meta(page_area),
                meta(META_HTML_SCROLLABLE_RIGHT_KEY, &length(overflow_right)),
            ],
        }],
    };

    apply_html_page_shrink_to_fit(&mut doc);

    assert!(matches!(
        doc.pages[0].commands.first(),
        Some(Command::SetFillColor(color)) if *color == template_color
    ));
    assert!(matches!(
        doc.pages[0].commands.get(1),
        Some(Command::DrawRect { x, y, width, height })
            if *x == Pt::zero()
                && *y == Pt::zero()
                && *width == page_size.width
                && *height == page_size.height
    ));
    let block_start_guard = Pt::from_milli_i64(1);
    assert!(doc.pages[0].commands.iter().any(|command| matches!(
        command,
        Command::ClipRect { x, y, width, height }
            if *x == page_area.x
                && *y == page_area.y.plus(block_start_guard)
                && *width == page_area.width
                && *height == page_area.height.minus(block_start_guard)
    )));
    assert!(doc.pages[0].commands.iter().any(|command| matches!(
        command,
        Command::CssTransformOrigin { x, y, inverse: false }
            if *x == page_area.x && *y == page_area.y
    )));
    let scale = scale_of(&doc.pages[0]).expect("expected page-area shrink transform");
    let expected = 114.0 / (143.0 - 24.0);
    assert!((scale.0 - expected).abs() < 1.0e-6);
    assert!((scale.1 - expected).abs() < 1.0e-6);
}

#[test]
fn html_page_shrink_extends_only_propagated_canvas_background_block_end() {
    let page_size = Size { width: pt(144.0), height: pt(150.0) };
    let page_area = rect(24.0, 12.0, 114.0, 132.0);
    let canvas_height = pt(132.0);
    let content_height = pt(9.0);
    let mut doc = Document {
        page_size,
        pages: vec![Page {
            commands: vec![
                meta(META_PAGE_TEMPLATE_KEY, "Right"),
                area_meta(page_area),
                meta(META_HTML_SCROLLABLE_RIGHT_KEY, &length(pt(143.0))),
                meta(META_HTML_CANVAS_BACKGROUND_KEY, "begin"),
                Command::DrawRect {
                    x: Pt::zero(),
                    y: Pt::zero(),
                    width: page_area.width,
                    height: canvas_height,
                },
                meta(META_HTML_CANVAS_BACKGROUND_KEY, "end"),
                Command::DrawRect {
                    x: Pt::zero(),
                    y: Pt::zero(),
                    width: pt(7.0),
                    height: content_height,
                },
            ],
        }],
    };

    apply_html_page_shrink_to_fit(&mut doc);

    assert!(doc.pages[0].commands.iter().any(|command| matches!(
        command,
        Command::DrawRect { width, height, .. }
            if *width == page_area.width && *height == canvas_height.plus(pt(0.25))
    )));
    assert!(doc.pages[0].commands.iter().any(|command| matches!(
        command,
        Command::DrawRect { width, height, .. }
            if *width == pt(7.0) && *height == content_height
    )));
}

#[test]
fn html_page_shrink_uses_one_document_scale_across_asymmetric_page_areas() {
    let first_area = rect(6.0, 6.0, 114.0, 126.0);
    let second_area = rect(24.0, 12.0, 114.0, 132.0);
    let page = |area: Rect, scrollable_right: Pt| Page {
        commands: vec![
            meta(META_PAGE_TEMPLATE_KEY, "Page"),
            area_meta(area),
            meta(META_HTML_SCROLLABLE_RIGHT_KEY, &length(scrollable_right)),
        ],
    };
    let overflow_right = pt(143.0);
    let mut doc = Document {
        page_size: Size { width: pt(144.0), height: pt(150.0) },
        pages: vec![
            page(first_area, first_area.x.plus(first_area.width)),
            page(second_area, overflow_right),
        ],
    };

    apply_html_page_shrink_to_fit(&mut doc);

    let expected = 114.0 / (143.0 - 24.0);
    for page in &doc.pages {
        assert_eq!(scale_of(page), Some((expected, expected)));
    }
    assert!(doc.pages[0].commands.iter().any(|command| matches!(
        command,
        Command::CssTransformOrigin { x, y, inverse: false }
            if *x == first_area.x && *y == first_area.y
    )));
    assert!(doc.pages[1].commands.iter().any(|command| matches!(
        command,
        Command::CssTransformOrigin { x, y, inverse: false }
            if *x == second_area.x && *y == second_area.y
    )));
}

fn is_plain_move(command: &Command, x: Pt, y: Pt) -> bool {
    matches!(
        command,
        Command::ConcatMatrix { a, b, c, d, e, f }
            if number(a) == 1.0
                && number(b) == 0.0
                && number(c) == 0.0
                && number(d) == 1.0
                && *e == x
                && *f == y
    )
}

fn is_note_or_tag(command: &Command) -> bool {
    matches!(
        command,
        Command::Meta { .. }
            | Command::BeginTag { .. }
            | Command::BeginTagActualText { .. }
            | Command::EndTag
    )
}

#[test]
fn html_transformed_block_start_overflow_replays_on_previous_fragmentainer() {
    let first_area = rect(6.0, 6.0, 114.0, 126.0);
    let second_area = rect(24.0, 12.0, 114.0, 132.0);
    let mut doc = Document {
        page_size: Size { width: pt(144.0), height: pt(150.0) },
        pages: vec![
            Page { commands: vec![meta(META_PAGE_TEMPLATE_KEY, "Left"), area_meta(first_area)] },
            Page {
                commands: vec![
                    meta(META_PAGE_TEMPLATE_KEY, "Right"),
                    area_meta(second_area),
                    meta(META_HTML_SCROLLABLE_TOP_KEY, &length(second_area.y.minus(pt(3.0)))),
                    tag("P"),
                    Command::DrawRect {
                        x: second_area.x,
                        y: second_area.y.minus(pt(3.0)),
                        width: pt(12.0),
                        height: pt(6.0),
                    },
                    Command::EndTag,
                ],
            },
        ],
    };

    apply_html_page_shrink_to_fit(&mut doc);

    assert!(!doc
        .pages
        .iter()
        .flat_map(|page| &page.commands)
        .any(|command| matches!(command, Command::Scale(..))));
    let artifact_start = doc.pages[0]
        .commands
        .iter()
        .position(|command| matches!(command, Command::BeginArtifact { subtype: None }))
        .expect("expected a visual overflow artifact");
    let artifact_end = doc.pages[0].commands[artifact_start + 1..]
        .iter()
        .position(|command| matches!(command, Command::EndMarkedContent))
        .map(|index| artifact_start + 1 + index)
        .expect("expected the visual overflow artifact terminator");
    let replay = &doc.pages[0].commands[artifact_start + 1..artifact_end];
    assert!(replay.iter().any(|command| matches!(command, Command::DrawRect { .. })));
    assert!(!replay.iter().any(is_note_or_tag));
    let expected_x = first_area.x.minus(second_area.x);
    let expected_y =
        first_area.y.plus(first_area.height).minus(second_area.y).plus(pt(0.25));
    assert!(doc.pages[0]
        .commands
        .iter()
        .any(|command| is_plain_move(command, expected_x, expected_y)));
    assert!(doc.pages[0]
        .commands
        .iter()
        .any(|command| matches!(command, Command::BeginArtifact { subtype: None })));
}

#[test]
fn html_transformed_block_end_overflow_replays_before_matching_continuation() {
    let page_size = Size { width: pt(144.0), height: pt(150.0) };
    let page_area =
        Rect { x: Pt::zero(), y: Pt::zero(), width: page_size.width, height: page_size.height };
    let owner = "html:nth-of-type(1) > body:nth-of-type(1) > div:nth-of-type(1)";
    let scope_begin = || meta(META_DIAGNOSTIC_SCOPE_BEGIN_KEY, "flowable");
    let scope_end = || meta(META_DIAGNOSTIC_SCOPE_END_KEY, "flowable");
    assert_eq!(META_OWNER_PATH_KEY, "fb.owner.dom_path");
    let owner_meta = || meta("fb.owner.dom_path", owner);
    let source_rect = rect(11.0, 120.0, 80.0, 36.0);
    let continuation_color = rgb(0.2, 0.4, 0.6);
    let mut doc = Document {
        page_size,
        pages: vec![
            Page {
                commands: vec![
                    meta(META_PAGE_TEMPLATE_KEY, "Source"),
                    area_meta(page_area),
                    scope_begin(),
                    owner_meta(),
                    meta(
                        META_HTML_SCROLLABLE_BOTTOM_KEY,
                        &length(page_area.y.plus(page_area.height).plus(pt(6.0))),
                    ),
                    tag("Div"),
                    Command::DrawRect {
                        x: source_rect.x,
                        y: source_rect.y,
                        width: source_rect.width,
                        height: source_rect.height,
                    },
                    Command::EndTag,
                    scope_end(),
                ],
            },
            Page {
                commands: vec![
                    meta(META_PAGE_TEMPLATE_KEY, "Destination"),
                    area_meta(page_area),
                    Command::SetFillColor(continuation_color),
                    scope_begin(),
                    owner_meta(),
                    Command::DrawRect {
                        x: pt(11.0),
                        y: Pt::zero(),
                        width: pt(80.0),
                        height: pt(24.0),
                    },
                    scope_end(),
                ],
            },
        ],
    };

    apply_html_page_shrink_to_fit(&mut doc);

    let commands = &doc.pages[1].commands;
    let ancestor_paint = commands
        .iter()
        .position(|command| {
            matches!(command, Command::SetFillColor(color) if *color == continuation_color)
        })
        .expect("expected continuation ancestor paint");
    let artifact_start = commands
        .iter()
        .position(|command| matches!(command, Command::BeginArtifact { subtype: None }))
        .expect("expected a carried block-end artifact");
    let artifact_end = commands[artifact_start + 1..]
        .iter()
        .position(|command| matches!(command, Command::EndMarkedContent))
        .map(|index| artifact_start + 1 + index)
        .expect("expected the carried block-end artifact terminator");
    let continuation_scope = commands[artifact_end + 1..]
        .iter()
        .position(|command| {
            matches!(command, Command::Meta { key, .. } if key == META_DIAGNOSTIC_SCOPE_BEGIN_KEY)
        })
        .map(|index| artifact_end + 1 + index)
        .expect("expected the matching continuation scope");
    assert!(ancestor_paint < artifact_start);
    assert!(artifact_end < continuation_scope);
    let replay = &commands[artifact_start + 1..artifact_end];
    assert!(replay
        .iter()
        .any(|command| is_plain_move(command, Pt::zero(), Pt::zero().minus(page_area.height))));
    assert!(replay.iter().any(|command| matches!(
        command,
        Command::DrawRect { x, y, width, height }
            if *x == source_rect.x
                && *y == source_rect.y
                && *width == source_rect.width
                && *height == source_rect.height
    )));
    assert!(!replay.iter().any(is_note_or_tag));
}

#[test]
fn html_page_shrink_uses_each_pages_named_physical_width() {
    let default_width = pt(252.0);
    let named_width = pt(841.89);
    let mut doc = Document {
        page_size: Size { width: default_width, height: pt(228.0) },
        pages: vec![Page {
            commands: vec![
                meta(META_PAGE_SIZE_KEY, &format!("{},1190551", named_width.to_milli_i64())),
                meta(META_HTML_SCROLLABLE_RIGHT_KEY, &length(pt(817.89))),
            ],
        }],
    };

    apply_html_page_shrink_to_fit(&mut doc);

    assert!(
        !doc.pages[0].commands.iter().any(|command| matches!(command, Command::Scale(..))),
        "content inside the named page width must not be scaled to the document default"
    );
}

#[test]
fn a_document_that_fits_is_left_alone() {
    let mut doc = Document {
        page_size: Size { width: pt(252.0), height: pt(72.0) },
        pages: vec![Page {
            commands: vec![
                meta(META_HTML_SCROLLABLE_RIGHT_KEY, &length(pt(252.0))),
                Command::DrawString { x: pt(1.0), y: pt(2.0), text: "a".to_string() },
            ],
        }],
    };
    apply_html_page_shrink_to_fit(&mut doc);
    assert_eq!(doc.pages[0].commands.len(), 2);
    assert!(matches!(&doc.pages[0].commands[1], Command::DrawString { text, .. } if text == "a"));
}

#[test]
fn the_narrowest_page_sets_the_scale_of_the_document() {
    let page = |right: f64| Page {
        commands: vec![meta(META_HTML_SCROLLABLE_RIGHT_KEY, &length(pt(right)))],
    };
    let mut doc = Document {
        page_size: Size { width: pt(100.0), height: pt(72.0) },
        pages: vec![page(125.0), page(200.0), page(50.0)],
    };
    apply_html_page_shrink_to_fit(&mut doc);
    for page in &doc.pages {
        assert_eq!(scale_of(page), Some((0.5, 0.5)));
    }
}
