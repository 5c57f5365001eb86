use fullbleed::builder::FullBleed;
use fullbleed::command::Command;
use fullbleed::geometry::{Color, Margins, Pt, Real, Rect, Size};
use fullbleed::margins::{page_background_commands, print_mark_commands, PrintMarks};
use fullbleed::pages::{
    build_page_templates, build_template, css_page_frame, numbered_template, resolve_css_page_context, resolver_viewport, MarginRule,
    MarginTable, PageLayer, PageName, PageRules, PageSelector, TemplatePlan,
    TemplateSetup,
};

fn pt(v: f64) -> Pt {
    Pt::from_milli_i64((v * 1000.0).round() as i64)
}

fn size(width: f64, height: f64) -> Size {
    Size { width: pt(width), height: pt(height) }
}

fn margins(top: f64, right: f64, bottom: f64, left: f64) -> Margins {
    Margins { top: pt(top), right: pt(right), bottom: pt(bottom), left: pt(left) }
}

fn rect(x: f64, y: f64, width: f64, height: f64) -> Rect {
    Rect { x: pt(x), y: pt(y), width: pt(width), height: pt(height) }
}

fn rule(top: Option<Pt>) -> MarginRule {
    MarginRule {
        margin_top: top,
        margin_right: None,
        margin_bottom: None,
        margin_left: None,
        margin_top_percent: None,
        margin_right_percent: None,
        margin_bottom_percent: None,
        margin_left_percent: None,
    }
}

fn rules(top: Option<Pt>) -> PageRules {
    PageRules {
        base: rule(top),
        first: rule(top),
        left: rule(top),
        right: rule(top),
        blank: rule(top),
    }
}

#[test]
fn css_page_size_applies_when_builder_page_size_is_default() {
    let engine = FullBleed::builder().build().expect("engine");
    let resolved = resolve_css_page_context(
        engine.page_defaults(),
        Some(size(612.0, 792.0)),
        Some(margins(36.0, 36.0, 36.0, 36.0)),
        &mut Vec::new(),
    );
    assert_eq!(resolved.page_size, size(612.0, 792.0));
    assert_eq!(resolved.base_margins, margins(36.0, 36.0, 36.0, 36.0));
}

#[test]
fn a_page_size_set_on_purpose_stands() {
    let engine = FullBleed::builder().page_size(size(100.0, 200.0)).build().expect("engine");
    let resolved =
        resolve_css_page_context(engine.page_defaults(), Some(size(612.0, 792.0)), None, &mut Vec::new());
    assert_eq!(resolved.page_size, size(100.0, 200.0));
    assert_eq!(resolved.base_margins, margins(36.0, 36.0, 36.0, 36.0));
}

#[test]
fn margins_set_on_purpose_strip_those_of_page_rules() {
    let engine = FullBleed::builder().margin_all(pt(9.0)).build().expect("engine");
    let mut sheet = vec![rules(Some(pt(30.0))), rules(Some(pt(30.0)))];
    let resolved = resolve_css_page_context(
        engine.page_defaults(),
        Some(size(120.0, 90.0)),
        Some(margins(30.0, 30.0, 30.0, 30.0)),
        &mut sheet,
    );
    assert_eq!(resolved.base_margins, margins(9.0, 9.0, 9.0, 9.0));
    assert_eq!(sheet, vec![rules(None), rules(None)]);
    let frame = css_page_frame(resolved.page_size, resolved.base_margins, Some(size(120.0, 90.0)), None);
    assert_eq!(frame.frame, rect(9.0, 9.0, 102.0, 72.0));
}

#[test]
fn margins_of_a_style_sheet_replace_those_of_single_pages() {
    let mut table = MarginTable::new();
    table.set(2, margins(1.0, 1.0, 1.0, 1.0));
    let engine = FullBleed::builder().build().expect("engine");
    let mut defaults = engine.page_defaults();
    defaults.page_margins = table;
    let mut sheet = vec![rules(Some(pt(30.0)))];
    let resolved =
        resolve_css_page_context(defaults, None, Some(margins(2.0, 2.0, 2.0, 2.0)), &mut sheet);
    assert!(resolved.page_margins.entries.is_empty());
    assert_eq!(resolved.base_margins, margins(2.0, 2.0, 2.0, 2.0));
    assert_eq!(sheet, vec![rules(Some(pt(30.0)))]);
    assert_eq!(resolver_viewport(&resolved, true, Some(size(1.0, 2.0))), size(1.0, 2.0));
    assert_eq!(resolver_viewport(&resolved, false, Some(size(1.0, 2.0))), Size::a4());
    assert_eq!(resolver_viewport(&resolved, true, None), Size::a4());
}

#[test]
fn page_rules_select_physical_margins() {
    let page = size(144.0, 150.0);
    let base = margins(12.0, 12.0, 12.0, 12.0);
    let first = css_page_frame(page, base, None, Some(margins(24.0, 6.0, 12.0, 18.0)));
    assert_eq!(first.frame, rect(18.0, 24.0, 120.0, 114.0));
    let left = css_page_frame(page, base, None, Some(margins(6.0, 24.0, 18.0, 6.0)));
    assert_eq!(left.frame, rect(6.0, 6.0, 114.0, 126.0));
    let right = css_page_frame(page, base, None, Some(margins(12.0, 6.0, 6.0, 24.0)));
    assert_eq!(right.frame, rect(24.0, 12.0, 114.0, 132.0));
    let crushed = css_page_frame(page, margins(100.0, 100.0, 100.0, 100.0), None, None);
    assert_eq!(crushed.frame, rect(100.0, 100.0, 0.0, 0.0));
}

fn names(plans: &[TemplatePlan]) -> Vec<&str> {
    plans
        .iter()
        .map(|p| match p {
            TemplatePlan::Css { name, .. } => name.as_str(),
            TemplatePlan::Plain { name, .. } => name.as_str(),
            TemplatePlan::Numbered { name, .. } => name.as_str(),
        })
        .collect()
}

#[test]
fn a_plain_style_sheet_has_one_template() {
    let plans = build_page_templates(
        size(100.0, 200.0),
        margins(1.0, 2.0, 3.0, 4.0),
        &MarginTable::new(),
        false,
        &Vec::new(),
    );
    assert_eq!(names(&plans), ["Page1"]);
    assert!(matches!(
        &plans[0],
        TemplatePlan::Plain { frame, .. } if *frame == rect(4.0, 1.0, 94.0, 196.0)
    ));
}

#[test]
fn rules_for_single_pages_have_templates_of_their_own() {
    let plans = build_page_templates(
        size(100.0, 200.0),
        margins(1.0, 2.0, 3.0, 4.0),
        &MarginTable::new(),
        true,
        &vec![PageName { name: "chapter".to_string(), id: 7 }],
    );
    assert_eq!(
        names(&plans),
        [
            "First",
            "Left",
            "Right",
            "BlankLeft",
            "BlankRight",
            "Named:chapter:First",
            "Named:chapter:Left",
            "Named:chapter:Right",
            "Named:chapter:BlankLeft",
            "Named:chapter:BlankRight",
            "Named:chapter",
            "Page",
        ]
    );
    assert!(matches!(
        &plans[8],
        TemplatePlan::Css { selector: PageSelector::NamedBlankLeft(7), layers, .. }
            if *layers == vec![
                PageLayer::Base,
                PageLayer::Left,
                PageLayer::Blank,
                PageLayer::NamedBase(0),
                PageLayer::NamedLeft(0),
                PageLayer::NamedBlank(0),
            ]
    ));
    assert!(matches!(
        plans.last(),
        Some(TemplatePlan::Css { selector: PageSelector::Any, .. })
    ));
}

#[test]
fn margins_by_page_number_have_a_template_per_number() {
    let mut table = MarginTable::new();
    table.set(3, margins(10.0, 10.0, 10.0, 10.0));
    table.set(1, margins(5.0, 5.0, 5.0, 5.0));
    let plans = build_page_templates(
        size(100.0, 200.0),
        margins(0.0, 0.0, 0.0, 0.0),
        &table,
        true,
        &Vec::new(),
    );
    assert_eq!(names(&plans), ["Page1", "Page2", "Page3"]);
    assert_eq!(numbered_template(plans.len(), 1), 0);
    assert_eq!(numbered_template(plans.len(), 3), 2);
    assert_eq!(numbered_template(plans.len(), 99), 2);
    let frames: Vec<Rect> = plans
        .iter()
        .map(|p| match p {
            TemplatePlan::Numbered { page_size, frame, .. } => {
                assert_eq!(*page_size, size(100.0, 200.0));
                *frame
            }
            _ => panic!("a numbered template"),
        })
        .collect();
    assert_eq!(
        frames,
        vec![
            rect(5.0, 5.0, 90.0, 190.0),
            rect(0.0, 0.0, 100.0, 200.0),
            rect(10.0, 10.0, 80.0, 180.0),
        ]
    );
}

fn background(commands: &[Command]) -> Option<Rect> {
    commands.iter().find_map(|c| match c {
        Command::DrawRect { x, y, width, height } => {
            Some(Rect { x: *x, y: *y, width: *width, height: *height })
        }
        _ => None,
    })
}

#[test]
fn templates_are_built_from_their_plans() {
    let page = size(100.0, 200.0);
    let base = margins(1.0, 2.0, 3.0, 4.0);
    let grey = Color { r: Real { bits: 0 }, g: Real { bits: 0 }, b: Real { bits: 0 } };
    let opaque = Real { bits: 1.0f32.to_bits() };
    let marks = PrintMarks { crop: true, cross: true, extent: pt(10.0) };
    let setup = TemplateSetup {
        size: Some(size(50.0, 60.0)),
        margins: Some(margins(5.0, 5.0, 5.0, 5.0)),
        background: Some((grey, opaque)),
        marks,
    };
    let mark_count = |s: Size| print_mark_commands(s, marks).len();
    let fill_count = |s: Size, e: f64| page_background_commands(s, pt(e), grey, opaque).len();

    let plain = build_page_templates(page, base, &MarginTable::new(), false, &Vec::new());
    let t = build_template(&plain[0], page, base, &setup);
    assert_eq!((t.name.as_str(), t.page_size), ("Page1", page));
    assert_eq!(t.frame, rect(4.0, 1.0, 94.0, 196.0));
    assert_eq!(t.background_extent, pt(0.0));
    assert!(!t.draws_marks && !t.draws_boxes && !t.has_presentation && !t.sets_counter);
    assert_eq!(background(&t.paint), Some(rect(0.0, 0.0, 100.0, 200.0)));
    assert_eq!(t.paint.len(), fill_count(page, 0.0));

    let mut table = MarginTable::new();
    table.set(2, margins(10.0, 10.0, 10.0, 10.0));
    let numbered = build_page_templates(page, base, &table, true, &Vec::new());
    let t = build_template(&numbered[1], page, base, &setup);
    assert_eq!((t.name.as_str(), t.page_size), ("Page2", page));
    assert_eq!(t.frame, rect(10.0, 10.0, 80.0, 180.0));
    assert_eq!(t.background_extent, pt(10.0));
    assert!(t.draws_marks && !t.draws_boxes && t.has_presentation && !t.sets_counter);
    assert_eq!(background(&t.paint), Some(rect(-10.0, -10.0, 120.0, 220.0)));
    assert_eq!(t.paint.len(), fill_count(page, 10.0) + mark_count(page));

    let css = build_page_templates(page, base, &MarginTable::new(), true, &Vec::new());
    let t = build_template(&css[0], page, base, &setup);
    assert_eq!((t.name.as_str(), t.page_size), ("First", size(50.0, 60.0)));
    assert_eq!(t.frame, rect(5.0, 5.0, 40.0, 50.0));
    assert!(t.draws_marks && t.draws_boxes && t.has_presentation && t.sets_counter);
    assert_eq!(background(&t.paint), Some(rect(-10.0, -10.0, 70.0, 80.0)));

    let bare = TemplateSetup {
        size: None,
        margins: None,
        background: None,
        marks: PrintMarks { crop: false, cross: false, extent: pt(0.0) },
    };
    let t = build_template(&css[0], page, base, &bare);
    assert_eq!((t.page_size, t.frame), (page, rect(4.0, 1.0, 94.0, 196.0)));
    assert!(t.paint.is_empty());
}
