use fullbleed::bindings::{
    binding_slot_names, binding_slot_spans, collect_binding_slots, ordered_columns_for_slots, Column,
};
use fullbleed::caches::FlowProgramEntry;
use fullbleed::command::{Command, Document, Page};
use fullbleed::documents::FullBleedError;
use fullbleed::flow::{
    CompiledFlowRecordProgram, CompiledTextConstraint, LineAlign, META_COMPILED_TEXT_CONSTRAINT_KEY,
};
use fullbleed::geometry::{Pt, Size};
use fullbleed::reuse::{instantiate_first, FlowPrograms, MeasuredTexts};

fn milli(n: i64) -> Pt {
    Pt::from_milli_i64(n)
}

fn strings(list: &[&str]) -> Vec<String> {
    list.iter().map(|s| s.to_string()).collect()
}

/// Moves a text that starts just past the middle of a device pixel back by a fortieth of a point.
fn paint_phase(x: Pt) -> Pt {
    if x.to_milli_i64() % 750 == 563 {
        milli(x.to_milli_i64() - 25)
    } else {
        x
    }
}

#[test]
fn compiled_reflow_constraint_reexecutes_the_browser_text_paint_phase() {
    let constraint = CompiledTextConstraint::parse("563:100000:30000:100000:30000:0:0:1:r")
        .expect("compiled text constraint");

    assert_eq!(
        constraint.aligned_x(milli(100_000), paint_phase),
        milli(538),
        "the prototype phase must receive the browser's 0.025pt hint correction",
    );
    assert_eq!(
        constraint.aligned_x(milli(99_500), paint_phase),
        milli(1_063),
        "a width change must execute the shader at its new phase, not move the snapped prototype",
    );

    let unsnapped = CompiledTextConstraint::parse("563:100000:30000:100000:30000:0:0:0:r")
        .expect("unsnapped compiled text constraint");
    assert_eq!(unsnapped.aligned_x(milli(100_000), paint_phase), milli(563));
}

#[test]
fn constraints_are_read_whole_or_not_at_all() {
    let c = CompiledTextConstraint::parse("1:2:3:4:5:6:-7:0:c").expect("a constraint");
    assert_eq!(c.origin_x, milli(1));
    assert_eq!(c.position_max_width, milli(2));
    assert_eq!(c.old_position_width, milli(3));
    assert_eq!(c.guard_max_width, milli(4));
    assert_eq!(c.old_width, milli(5));
    assert_eq!(c.letter_spacing, milli(6));
    assert_eq!(c.word_spacing, milli(-7));
    assert!(!c.css_pixel_snap_metrics);
    assert!(matches!(c.align, LineAlign::Center));
    for bad in ["", "1:2:3:4:5:6:7:0", "1:2:3:4:5:6:7:0:c:9", "1:2:3:4:5:6:7:2:c", "x:2:3:4:5:6:7:0:c"] {
        assert!(CompiledTextConstraint::parse(bad).is_none(), "{bad}");
    }
}

#[test]
fn spacing_widens_a_text() {
    let c = CompiledTextConstraint::parse("0:0:0:0:0:100:1000:0:l").expect("a constraint");
    assert_eq!(c.measured_width(milli(5_000), "a b"), milli(5_000 + 2 * 100 + 1_000));
    assert_eq!(c.measured_width(milli(5_000), ""), milli(5_000));
    let shrunk = CompiledTextConstraint::parse("0:0:0:0:0:-3000:0:0:l").expect("a constraint");
    assert_eq!(shrunk.measured_width(milli(5_000), "abc"), milli(0));
}

#[test]
fn lines_are_aligned_within_the_width_that_is_left() {
    let line = |align: &str| {
        CompiledTextConstraint::parse(&format!("1000:10000:0:0:0:0:0:0:{align}")).expect("a line")
    };
    assert_eq!(line("l").unsnapped_x(milli(4_000)), milli(1_000));
    assert_eq!(line("c").unsnapped_x(milli(4_000)), milli(4_000));
    assert_eq!(line("r").unsnapped_x(milli(4_000)), milli(7_000));
    assert_eq!(line("r").unsnapped_x(milli(12_000)), milli(1_000));
}

fn edits(text: &str, values: &[&str]) -> Vec<(usize, usize, Vec<usize>)> {
    CompiledFlowRecordProgram::text_edits(text, &strings(values))
        .into_iter()
        .map(|e| (e.start, e.end, e.value_slots))
        .collect()
}

#[test]
fn values_are_found_in_texts() {
    let values = ["Ada Lovelace", "London", "Ada Lovelace"];
    assert_eq!(
        edits("Dear Ada Lovelace of London,", &values),
        vec![(5, 17, vec![0, 2]), (21, 27, vec![1])]
    );
    assert!(edits("London, London", &values).is_empty());
    assert_eq!(edits("London", &values), vec![(0, 6, vec![1])]);
    assert!(edits("abc def", &["abc"]).is_empty());
}

#[test]
fn places_in_texts_count_bytes() {
    let text = "Gr\u{fc}\u{df}e an J\u{fc}rgen \u{2014} Z\u{fc}rich";
    let values = ["J\u{fc}rgen", "Z\u{fc}rich"];
    let found = edits(text, &values);
    assert_eq!(found.len(), 2);
    for (start, end, slots) in &found {
        assert_eq!(&text[*start..*end], values[slots[0]]);
    }
    assert_eq!(edits("\u{e4}\u{f6}", &["\u{e4}\u{f6}"]), vec![(0, 4, vec![0])]);
    let slots = "\u{e4}{{name}}\u{1f600}{{b}}";
    let spans = binding_slot_spans(slots);
    assert_eq!((spans[0].start, spans[0].end), (2, 10));
    assert_eq!((spans[1].start, spans[1].end), (14, 19));
    assert_eq!(&slots[spans[1].start..spans[1].end], "{{b}}");
}

#[test]
fn records_with_wide_characters_take_other_values() {
    let program = CompiledFlowRecordProgram::compile(
        letter("Gr\u{fc}\u{df}e, J\u{fc}rgen!", "0:90000:40000:90000:40000:0:0:0:l"),
        strings(&["J\u{fc}rgen"]),
    );
    assert_eq!(
        program.bind(&strings(&["Zo\u{eb} \u{1f600}"])),
        Some(strings(&["Gr\u{fc}\u{df}e, Zo\u{eb} \u{1f600}!"]))
    );
}

fn letter(text: &str, constraint: &str) -> Document {
    Document {
        page_size: Size::a4(),
        pages: vec![Page {
            commands: vec![
                Command::SetFontName("Inter".to_string()),
                Command::SetFontSize(milli(12_000)),
                Command::Meta {
                    key: META_COMPILED_TEXT_CONSTRAINT_KEY.to_string(),
                    value: constraint.to_string(),
                },
                Command::DrawString { x: milli(7), y: milli(8), text: text.to_string() },
            ],
        }],
    }
}

#[test]
fn a_compiled_record_takes_other_values() {
    let program = CompiledFlowRecordProgram::compile(
        letter("Dear Grace Hopper,", "1000:100000:40000:100000:40000:0:0:0:l"),
        strings(&["Grace Hopper"]),
    );
    assert_eq!(program.patches.len(), 1);
    assert_eq!(program.page_patch_counts, vec![1]);
    assert_eq!(program.patched_values, vec![true]);
    assert_eq!(program.patches[0].font_name, "Inter");
    let values = strings(&["Ada Lovelace"]);
    assert_eq!(program.bind(&values), Some(strings(&["Dear Ada Lovelace,"])));
    let pages = program
        .instantiate(&values, &vec![milli(40_000)], &vec![milli(39_000)])
        .expect("the text fits its line");
    assert_eq!(pages.len(), 1);
    assert_eq!(pages[0].len(), 1);
    assert_eq!(pages[0][0].command, 3);
    assert_eq!(pages[0][0].text, "Dear Ada Lovelace,");
    assert_eq!(pages[0][0].x, milli(1_000));

    assert!(program.instantiate(&values, &vec![milli(40_000)], &vec![milli(200_000)]).is_none());
    assert!(program.bind(&strings(&["Ada", "Lovelace"])).is_none());
    let broken = strings(&["Ada\nLovelace"]);
    assert!(program.instantiate(&broken, &vec![milli(40_000)], &vec![milli(39_000)]).is_none());
}

#[test]
fn snapped_texts_are_drawn_at_their_paint_phase() {
    let place = |constraint: &str| {
        let program = CompiledFlowRecordProgram::compile(
            letter("Dear Grace Hopper,", constraint),
            strings(&["Grace Hopper"]),
        );
        let pages = program
            .instantiate(&strings(&["Ada Lovelace"]), &vec![milli(40_000)], &vec![milli(40_000)])
            .expect("the text fits its line");
        let text = &pages[0][0];
        (text.x, text.snap, text.painted_x(paint_phase))
    };
    assert_eq!(place("563:40000:40000:90000:40000:0:0:1:l"), (milli(563), true, milli(538)));
    assert_eq!(place("563:40000:40000:90000:40000:0:0:0:l"), (milli(563), false, milli(563)));
}

#[test]
fn the_prototype_itself_always_fits() {
    let values = strings(&["Grace Hopper"]);
    let program = CompiledFlowRecordProgram::compile(
        letter("Dear Grace Hopper,", "1000:1:1:1:1:0:0:0:l"),
        values.clone(),
    );
    assert!(program.instantiate(&values, &vec![milli(1)], &vec![milli(1)]).is_some());
}

#[test]
fn the_first_variant_that_takes_a_record_is_used() {
    let narrow = CompiledFlowRecordProgram::compile(
        letter("Dear Grace Hopper,", "0:40000:40000:40000:40000:0:0:0:l"),
        strings(&["Grace Hopper"]),
    );
    let wide = CompiledFlowRecordProgram::compile(
        letter("Dear Grace Hopper,", "0:90000:40000:90000:40000:0:0:0:l"),
        strings(&["Grace Hopper"]),
    );
    let programs = vec![narrow, wide];
    let measured = |n: i64| {
        vec![
            MeasuredTexts { before: vec![milli(40_000)], after: vec![milli(n)] },
            MeasuredTexts { before: vec![milli(40_000)], after: vec![milli(n)] },
        ]
    };
    let values = strings(&["Ada Lovelace, Countess"]);
    let (k, pages) = instantiate_first(&programs, &measured(80_000), &values).expect("a variant");
    assert_eq!(k, 1);
    assert_eq!(pages[0][0].text, "Dear Ada Lovelace, Countess,");
    assert!(instantiate_first(&programs, &measured(99_000), &values).is_none());
    let same = strings(&["Grace Hopper"]);
    assert_eq!(instantiate_first(&programs, &measured(40_000), &same).map(|r| r.0), Some(0));
}

#[test]
fn record_shapes_have_one_entry_each() {
    let mut programs = FlowPrograms::new();
    assert_eq!(programs.flow_program_entry("a"), 0);
    assert_eq!(programs.flow_program_entry("b"), 1);
    assert_eq!(programs.flow_program_entry("a"), 0);
    assert_eq!(programs.entries.len(), 2);
    let entry: &FlowProgramEntry = &programs.entries[1].1;
    assert_eq!(entry.variants, 0);
    assert!(!entry.compiling);
}

#[test]
fn slots_are_found_in_texts() {
    assert_eq!(binding_slot_names("Dear {{ name }}, {{a.b-c_1}}"), strings(&["name", "a.b-c_1"]));
    assert!(binding_slot_names("{{no good}} {{}} {{open").is_empty());
    let spans = binding_slot_spans("x{{y}}z");
    assert_eq!((spans[0].start, spans[0].end), (1, 6));
    let long = "n".repeat(65);
    assert!(binding_slot_names(&format!("{{{{{long}}}}}")).is_empty());
    assert_eq!(binding_slot_names(&format!("{{{{{}}}}}", &long[1..])).len(), 1);
}

#[test]
fn slots_of_a_page_are_sorted_and_unique() {
    let draw = |t: &str| Command::DrawString { x: milli(0), y: milli(0), text: t.to_string() };
    let commands = vec![
        draw("{{b}} {{a}}"),
        Command::DefineForm {
            resource_id: "f".to_string(),
            width: milli(1),
            height: milli(1),
            commands: vec![draw("{{hidden}}")],
        },
        draw("{{b}}"),
        Command::DrawStringTransformed {
            x: milli(0),
            y: milli(0),
            text: "{{C}}".to_string(),
            matrix: 0,
        },
    ];
    let mut slots = Vec::new();
    collect_binding_slots(&commands, &mut slots);
    assert_eq!(slots, strings(&["C", "a", "b"]));
}

fn column(slot: &str, values: &[&str]) -> Column {
    Column { slot: slot.to_string(), values: strings(values) }
}

fn column_error(slots: &[&str], columns: Vec<Column>) -> String {
    match ordered_columns_for_slots(&strings(slots), &columns, "nothing to bind") {
        Err(FullBleedError::InvalidConfiguration(text)) => text,
        Err(FullBleedError::EmptyDocumentSet) => "empty".to_string(),
        _ => panic!("the columns should be refused"),
    }
}

#[test]
fn columns_are_put_in_the_order_of_the_slots() {
    let columns = vec![column("b", &["1", "2"]), column("a", &["3", "4"])];
    let (count, order) =
        ordered_columns_for_slots(&strings(&["a", "b"]), &columns, "").expect("columns");
    assert_eq!(count, 2);
    assert_eq!(order, vec![1, 0]);
}

#[test]
fn columns_that_do_not_fit_are_refused() {
    assert_eq!(column_error(&[], vec![]), "nothing to bind");
    assert_eq!(
        column_error(&["a", "b"], vec![column("c", &["1"])]),
        "binding columns do not match compiled slots (missing=[\"a\", \"b\"], unknown=[\"c\"])"
    );
    assert_eq!(
        column_error(&["a\"b"], vec![column("c", &["1"])]),
        "missing binding column for slot \"a\\\"b\""
    );
    assert_eq!(
        column_error(&["a", "b"], vec![column("a", &["1"]), column("b", &["1", "2"])]),
        "binding column \"b\" has 2 rows; expected 1"
    );
    assert_eq!(column_error(&["a"], vec![column("a", &[])]), "empty");
}
