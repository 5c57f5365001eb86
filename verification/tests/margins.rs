use fullbleed::command::{Command, Document, Page};
use fullbleed::geometry::{Color, Margins, Pt, Ratio, Real, Rect, Size};
use fullbleed::margins::{
    margin_box_is_drawn, margin_box_paint, margin_text_settings, margin_text_y,
    page_background_commands, page_margin_box_rect, print_mark_commands, MarginBoxKind, MarginPart,
    PageLineHeight, PrintMarks, RunningElement, TextAlign, TextSettings,
};
use fullbleed::overlay::{
    apply_page_footer, apply_page_header, apply_page_header_html, drawn_texts_of, select_footer,
    select_header, snippet_source, substitute_placeholders_in_commands, PageFooterSpec,
    PageHeaderHtmlSpec, PageHeaderSpec, RenderedSnippet, SnippetSource,
};

fn pt(v: f64) -> Pt {
    Pt::from_milli_i64((v * 1000.0).round() as i64)
}

fn rect(x: f64, y: f64, width: f64, height: f64) -> Rect {
    Rect { x: pt(x), y: pt(y), width: pt(width), height: pt(height) }
}

fn page() -> Size {
    Size { width: pt(100.0), height: pt(200.0) }
}

fn margins() -> Margins {
    Margins { top: pt(10.0), right: pt(20.0), bottom: pt(30.0), left: pt(40.0) }
}

fn black() -> Color {
    Color { r: Real { bits: 0 }, g: Real { bits: 0 }, b: Real { bits: 0 } }
}

#[test]
fn margin_boxes_lie_around_the_content() {
    let of = |kind| page_margin_box_rect(page(), margins(), kind, None);
    assert_eq!(of(MarginBoxKind::TopLeftCorner).0, rect(0.0, 0.0, 40.0, 10.0));
    assert_eq!(of(MarginBoxKind::TopCenter).0, rect(40.0, 0.0, 40.0, 10.0));
    assert_eq!(of(MarginBoxKind::BottomRightCorner).0, rect(80.0, 170.0, 20.0, 30.0));
    assert_eq!(of(MarginBoxKind::TopCenter).1, TextAlign::Center);
    let content = rect(40.0, 10.0, 40.0, 160.0);
    for kind in [
        MarginBoxKind::TopLeft,
        MarginBoxKind::TopRight,
        MarginBoxKind::BottomLeft,
        MarginBoxKind::BottomCenter,
        MarginBoxKind::LeftTop,
        MarginBoxKind::LeftMiddle,
        MarginBoxKind::RightTop,
    ] {
        let r = of(kind).0;
        let apart = r.x.milli + r.width.milli <= content.x.milli
            || content.x.milli + content.width.milli <= r.x.milli
            || r.y.milli + r.height.milli <= content.y.milli
            || content.y.milli + content.height.milli <= r.y.milli;
        assert!(apart);
    }
}

fn no_text() -> TextSettings {
    TextSettings { font_size: None, line_height: None, color: None, font_weight: None }
}

#[test]
fn margin_text_is_inherited() {
    let t = margin_text_settings(&no_text(), &no_text(), pt(10.0), None, black());
    assert_eq!(t.font_size, pt(10.0));
    assert_eq!(t.line_height, pt(12.0));
    assert!(t.line_height_is_auto);
    let of_page = TextSettings {
        font_size: Some(pt(8.0)),
        line_height: Some(PageLineHeight::Number(Ratio { num: 3, den: 2 })),
        ..no_text()
    };
    let t = margin_text_settings(&no_text(), &of_page, pt(10.0), None, black());
    assert_eq!(t.line_height, pt(12.0));
    assert!(!t.line_height_is_auto);
    let own = TextSettings {
        font_size: Some(pt(20.0)),
        line_height: Some(PageLineHeight::Absolute(pt(-1.0))),
        font_weight: Some(700),
        ..no_text()
    };
    let t = margin_text_settings(&own, &of_page, pt(10.0), None, black());
    assert_eq!(t.font_size, pt(20.0));
    assert_eq!(t.line_height, pt(0.0));
    assert_eq!(t.font_weight, Some(700));
}

#[test]
fn margin_boxes_show_counters_and_running_elements() {
    let parts = vec![
        MarginPart::Text("Page ".to_string()),
        MarginPart::PageCounter,
        MarginPart::Text(" of ".to_string()),
        MarginPart::PagesCounter,
        MarginPart::NamedString(None),
        MarginPart::Running(Some(RunningElement {
            width: pt(60.0),
            height: pt(4.0),
            resource_id: "run".to_string(),
        })),
    ];
    let painted = margin_box_paint(
        page(),
        margins(),
        MarginBoxKind::TopCenter,
        None,
        Some((black(), Real { bits: 1.0f32.to_bits() })),
        &parts,
        3,
        12,
    );
    assert_eq!(painted.text, "Page 3 of 12");
    assert!(painted.commands.iter().any(
        |c| matches!(c, Command::DrawForm { y, resource_id, .. } if resource_id == "run" && *y == pt(3.0))
    ));
    assert!(painted.commands.iter().any(|c| matches!(c, Command::DrawRect { .. })));
    assert_eq!(margin_text_y(rect(0.0, 10.0, 5.0, 20.0), pt(8.0)), pt(16.0));
    assert!(margin_box_is_drawn(rect(0.0, 0.0, 1.0, 1.0), 1));
    assert!(!margin_box_is_drawn(rect(0.0, 0.0, 1.0, 1.0), 0));
    assert!(!margin_box_is_drawn(rect(0.0, 0.0, 0.0, 1.0), 1));
}

#[test]
fn page_backgrounds_reach_into_the_bleed() {
    let alpha = |v: f32| Real { bits: v.to_bits() };
    let painted = page_background_commands(page(), pt(5.0), black(), alpha(1.0));
    assert!(painted.iter().any(|c| matches!(
        c,
        Command::DrawRect { x, y, width, height }
            if *x == pt(-5.0) && *y == pt(-5.0) && *width == pt(110.0) && *height == pt(210.0)
    )));
    for invisible in [0.0f32, -0.0, -1.0] {
        assert!(page_background_commands(page(), pt(5.0), black(), alpha(invisible)).is_empty());
    }
}

#[test]
fn print_marks_need_room() {
    let marks = |crop, cross, extent| PrintMarks { crop, cross, extent: pt(extent) };
    assert!(print_mark_commands(page(), marks(false, false, 20.0)).is_empty());
    assert!(print_mark_commands(page(), marks(true, true, 0.0)).is_empty());
    let drawn = print_mark_commands(page(), marks(true, true, 20.0));
    assert!(matches!(drawn.first(), Some(Command::SaveState)));
    assert!(matches!(drawn.last(), Some(Command::RestoreState | Command::EndMarkedContent)));
    let opened = drawn.iter().filter(|c| matches!(c, Command::BeginArtifact { .. })).count();
    let closed = drawn.iter().filter(|c| matches!(c, Command::EndMarkedContent)).count();
    assert_eq!(opened, closed);
    assert!(drawn.len() > print_mark_commands(page(), marks(true, false, 20.0)).len());
}

fn some(t: &str) -> Option<String> {
    Some(t.to_string())
}

#[test]
fn headers_and_footers_are_chosen_by_page() {
    let (first, each, last) = (some("f"), some("e"), some("l"));
    let header = |page, total| select_header(&first, &each, &last, page, total).clone();
    assert_eq!(header(1, 3), some("f"));
    assert_eq!(header(2, 3), some("e"));
    assert_eq!(header(3, 3), some("l"));
    assert_eq!(header(1, 1), some("f"));
    assert_eq!(*select_header(&None, &each, &None, 1, 3), None);
    assert_eq!(*select_header(&None, &each, &None, 3, 3), some("e"));
    assert_eq!(*select_header(&None, &each, &last, 1, 1), some("l"));
    let footer = |page, total| select_footer(&first, &each, &last, page, total).clone();
    assert_eq!(footer(1, 1), some("l"));
    assert_eq!(footer(1, 3), some("f"));
    assert_eq!(*select_footer(&None, &each, &None, 1, 1), some("e"));
    assert_eq!(*select_footer(&None, &each, &None, 1, 3), some("e"));
}

fn blank_pages(n: usize) -> Document {
    Document { page_size: page(), pages: (0..n).map(|_| Page { commands: Vec::new() }).collect() }
}

fn numbered(template: &str, page: usize, total: usize) -> String {
    template.replace("{page}", &page.to_string()).replace("{pages}", &total.to_string())
}

fn drawn(page: &Page) -> Vec<(Pt, Pt, &str)> {
    page.commands
        .iter()
        .filter_map(|c| match c {
            Command::DrawString { x, y, text } => Some((*x, *y, text.as_str())),
            _ => None,
        })
        .collect()
}

#[test]
fn running_lines_take_the_template_of_their_page() {
    let header = PageHeaderSpec {
        first: None,
        each: some("{page} of {pages}"),
        last: some("end {page}"),
        font_name: "Helvetica".to_string(),
        font_size: pt(8.0),
        color: black(),
        x: pt(4.0),
        y_from_top: pt(6.0),
    };
    let mut doc = blank_pages(3);
    apply_page_header(&mut doc, &header, numbered);
    assert!(doc.pages[0].commands.is_empty());
    assert_eq!(drawn(&doc.pages[1]), vec![(pt(4.0), pt(6.0), "2 of 3")]);
    assert_eq!(drawn(&doc.pages[2]), vec![(pt(4.0), pt(6.0), "end 3")]);
    assert!(matches!(doc.pages[1].commands[0], Command::SetFillColor(c) if c == black()));
    assert!(matches!(&doc.pages[1].commands[1], Command::SetFontName(n) if n == "Helvetica"));
    assert!(matches!(doc.pages[1].commands[2], Command::SetFontSize(s) if s == pt(8.0)));

    let footer = PageFooterSpec {
        first: some("start"),
        each: some("{page}"),
        last: None,
        font_name: "Helvetica".to_string(),
        font_size: pt(8.0),
        color: black(),
        x: pt(4.0),
        y_from_bottom: pt(6.0),
    };
    let mut doc = blank_pages(3);
    apply_page_footer(&mut doc, &footer, numbered);
    assert_eq!(drawn(&doc.pages[0]), vec![(pt(4.0), pt(186.0), "start")]);
    assert_eq!(drawn(&doc.pages[1]), vec![(pt(4.0), pt(186.0), "2")]);
    assert_eq!(drawn(&doc.pages[2]), vec![(pt(4.0), pt(186.0), "3")]);
    let mut empty = blank_pages(0);
    apply_page_footer(&mut empty, &footer, numbered);
    assert!(empty.pages.is_empty());
}

#[test]
fn header_forms_are_defined_and_drawn() {
    let spec = PageHeaderHtmlSpec {
        first: some("<b>{page}</b>"),
        each: None,
        last: some("<i>{pages}</i>"),
        x: pt(1.0),
        y_from_top: pt(2.0),
        width: pt(30.0),
        height: pt(10.0),
    };
    let lay_out = |template: &str, text: &str, page: usize, _: usize| RenderedSnippet {
        form_id: format!("hdr-{page}"),
        commands: vec![
            Command::SetFontName(template.to_string()),
            Command::DrawString { x: pt(0.0), y: pt(0.0), text: text.to_string() },
        ],
    };
    let mut doc = blank_pages(3);
    apply_page_header_html(&mut doc, &spec, numbered, lay_out);
    assert!(doc.pages[1].commands.is_empty());
    let last = &doc.pages[2].commands;
    assert_eq!(last.len(), 6);
    assert!(matches!(
        &last[0],
        Command::DefineForm { resource_id, commands, .. } if resource_id == "hdr-3"
            && drawn_texts_of(commands) == vec!["<i>3</i>".to_string()]
    ));
    assert!(matches!(last[1], Command::SaveState));
    assert!(matches!(last[2], Command::Translate(x, y) if x == pt(1.0) && y == pt(2.0)));
    assert!(matches!(last[3], Command::ClipRect { x, width, .. } if x == pt(0.0) && width == pt(30.0)));
    assert!(matches!(&last[4], Command::DrawForm { resource_id, .. } if resource_id == "hdr-3"));
    assert!(matches!(last[5], Command::RestoreState));
    assert!(matches!(
        &doc.pages[0].commands[0],
        Command::DefineForm { commands, .. }
            if drawn_texts_of(commands) == vec!["<b>1</b>".to_string()]
    ));
    let mut single = blank_pages(1);
    apply_page_header_html(&mut single, &spec, numbered, lay_out);
    assert!(matches!(
        &single.pages[0].commands[0],
        Command::DefineForm { commands, .. }
            if drawn_texts_of(commands) == vec!["<b>1</b>".to_string()]
    ));
    assert!(matches!(snippet_source(true, true), SnippetSource::RenderAlone));
    assert!(matches!(snippet_source(false, true), SnippetSource::RenderAndKeep));
    assert!(matches!(snippet_source(false, false), SnippetSource::SubstituteInCommands));
}

#[test]
fn texts_inside_forms_are_substituted_too() {
    let draw = |t: &str| Command::DrawString { x: pt(0.0), y: pt(0.0), text: t.to_string() };
    let commands = vec![
        draw("{page}"),
        Command::DefineForm {
            resource_id: "f".to_string(),
            width: pt(1.0),
            height: pt(1.0),
            commands: vec![draw("{pages}")],
        },
        draw("x"),
    ];
    assert_eq!(drawn_texts_of(&commands), vec!["{page}", "{pages}", "x"]);
    let new = vec!["1".to_string(), "9".to_string(), "x".to_string()];
    let replaced = substitute_placeholders_in_commands(&commands, &new);
    assert_eq!(drawn_texts_of(&replaced), new);
    assert_eq!(replaced.len(), 3);
    assert!(matches!(&replaced[1], Command::DefineForm { resource_id, .. } if resource_id == "f"));
}
