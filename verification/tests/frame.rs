use fullbleed::command::{Command, Page};
use fullbleed::frame::{
    draw_story, AddResult, Canvas, Flowable, Frame, Spacer, TableCell, TableFlowable,
};
use fullbleed::geometry::{Pt, Rect, Size};

fn pt(v: f64) -> Pt {
    Pt::from_milli_i64((v * 1000.0).round() as i64)
}

fn table_cell(text: &str) -> TableCell {
    TableCell { text: text.to_string(), width: pt(150.0), height: pt(12.0) }
}

fn page_contains_text(page: &Page, needle: &str) -> bool {
    page.commands.iter().any(|cmd| match cmd {
        Command::DrawString { text, .. } => text.contains(needle),
        _ => false,
    })
}

fn spacer(height: f64) -> Flowable {
    Flowable::Spacer(Spacer::new_pt(pt(height)))
}

fn numbered_rows(n: usize) -> Vec<Vec<TableCell>> {
    (1..=n).map(|i| vec![table_cell(&i.to_string()), table_cell(&format!("row-{i}"))]).collect()
}

#[test]
fn frame_overflows_on_extra_spacer() {
    let mut frame = Frame::new(Rect {
        x: Pt::zero(),
        y: Pt::zero(),
        width: pt(200.0),
        height: pt(50.0),
    });
    let mut canvas = Canvas::new(Size { width: pt(200.0), height: pt(200.0) });

    for _ in 0..10 {
        let result = frame.add(spacer(5.0), &mut canvas);
        assert!(matches!(result, AddResult::Placed(_)));
    }

    let result = frame.add(spacer(5.0), &mut canvas);
    assert!(matches!(result, AddResult::Overflow(_, _)));
}

#[test]
fn table_split_repeats_header_when_enabled() {
    let header = vec![vec![table_cell("HDR_ID"), table_cell("HDR_NAME")]];
    let body = numbered_rows(20);
    let table = TableFlowable::new(body).with_header(header).repeat_header(true);

    let frame_rect = Rect { x: Pt::zero(), y: Pt::zero(), width: pt(300.0), height: pt(72.0) };
    let mut frame1 = Frame::new(frame_rect);
    let mut canvas = Canvas::new(Size { width: pt(300.0), height: pt(200.0) });
    let second = match frame1.add(Flowable::Table(table), &mut canvas) {
        AddResult::Split(rest, _) => rest,
        other => panic!("expected split, got variant {:?}", std::mem::discriminant(&other)),
    };

    canvas.show_page();
    let mut frame2 = Frame::new(frame_rect);
    let result2 = frame2.add(second, &mut canvas);
    assert!(matches!(result2, AddResult::Placed(_) | AddResult::Split(_, _)));

    let doc = canvas.finish();
    assert!(doc.pages.len() >= 2);
    assert!(page_contains_text(&doc.pages[0], "HDR_ID"));
    assert!(page_contains_text(&doc.pages[1], "HDR_ID"));
}

#[test]
fn table_split_does_not_repeat_header_when_disabled() {
    let header = vec![vec![table_cell("HDR_OFF"), table_cell("HDR_OFF_NAME")]];
    let body = numbered_rows(20);
    let table = TableFlowable::new(body).with_header(header).repeat_header(false);

    let frame_rect = Rect { x: Pt::zero(), y: Pt::zero(), width: pt(300.0), height: pt(72.0) };
    let mut frame1 = Frame::new(frame_rect);
    let mut canvas = Canvas::new(Size { width: pt(300.0), height: pt(200.0) });
    let second = match frame1.add(Flowable::Table(table), &mut canvas) {
        AddResult::Split(rest, _) => rest,
        other => panic!("expected split, got variant {:?}", std::mem::discriminant(&other)),
    };

    canvas.show_page();
    let mut frame2 = Frame::new(frame_rect);
    let result2 = frame2.add(second, &mut canvas);
    assert!(matches!(result2, AddResult::Placed(_) | AddResult::Split(_, _)));

    let doc = canvas.finish();
    assert!(doc.pages.len() >= 2);
    assert!(page_contains_text(&doc.pages[0], "HDR_OFF"));
    assert!(!page_contains_text(&doc.pages[1], "HDR_OFF"));
}

#[test]
fn a_split_table_keeps_all_of_its_rows() {
    let mut rest = Flowable::Table(
        TableFlowable::new(numbered_rows(20)).with_header(vec![vec![table_cell("H")]]),
    );
    let rect = Rect { x: Pt::zero(), y: pt(10.0), width: pt(300.0), height: pt(72.0) };
    let mut canvas = Canvas::new(Size { width: pt(300.0), height: pt(200.0) });
    loop {
        let mut frame = Frame::new(rect);
        match frame.add(rest, &mut canvas) {
            AddResult::Placed(_) => break,
            AddResult::Split(left, height) => {
                assert_eq!(height, pt(72.0));
                rest = left;
            }
            AddResult::Overflow(_, _) => panic!("a row fits below the header"),
        }
        canvas.show_page();
    }
    let doc = canvas.finish();
    assert_eq!(doc.pages.len(), 4);
    let drawn: Vec<&str> = doc
        .pages
        .iter()
        .flat_map(|p| &p.commands)
        .filter_map(|c| match c {
            Command::DrawString { text, .. } => Some(text.as_str()),
            _ => None,
        })
        .filter(|t| t.starts_with("row-"))
        .collect();
    let expected: Vec<String> = (1..=20).map(|i| format!("row-{i}")).collect();
    assert_eq!(drawn, expected);
    assert!(matches!(
        &doc.pages[1].commands[2],
        Command::DrawString { x, y, text } if *x == pt(150.0) && *y == pt(22.0) && text == "row-6"
    ));
}

#[test]
fn a_table_without_room_for_a_row_overflows() {
    let table = TableFlowable::new(numbered_rows(3)).with_header(vec![vec![table_cell("H")]]);
    let mut frame =
        Frame::new(Rect { x: Pt::zero(), y: Pt::zero(), width: pt(300.0), height: pt(20.0) });
    let mut canvas = Canvas::new(Size { width: pt(300.0), height: pt(200.0) });
    match frame.add(Flowable::Table(table), &mut canvas) {
        AddResult::Overflow(Flowable::Table(t), taken) => {
            assert_eq!(taken, Pt::zero());
            assert_eq!(t.body.len(), 3);
            assert!(!t.continued);
        }
        _ => panic!("no row fits below the header"),
    }
    assert_eq!(frame.used, Pt::zero());
    assert!(canvas.commands.is_empty());
}

#[test]
fn a_story_is_drawn_up_to_the_first_item_that_does_not_fit() {
    let size = Size { width: pt(300.0), height: pt(200.0) };
    let story = vec![
        spacer(10.0),
        Flowable::Table(TableFlowable::new(numbered_rows(4))),
        Flowable::Table(TableFlowable::new(numbered_rows(1))),
    ];
    let commands = draw_story(story, size, pt(300.0), pt(36.0));
    let drawn: Vec<(i64, String)> = commands
        .iter()
        .filter_map(|c| match c {
            Command::DrawString { y, text, .. } => Some((y.to_milli_i64(), text.clone())),
            _ => None,
        })
        .collect();
    assert_eq!(
        drawn,
        vec![
            (10_000, "1".to_string()),
            (10_000, "row-1".to_string()),
            (22_000, "2".to_string()),
            (22_000, "row-2".to_string()),
        ]
    );

    let size2 = Size { width: pt(300.0), height: pt(200.0) };
    let story2 = vec![spacer(40.0), Flowable::Table(TableFlowable::new(numbered_rows(1)))];
    assert!(draw_story(story2, size2, pt(300.0), pt(36.0)).is_empty());
}
